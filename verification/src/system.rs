//! What the library reads from the operating system's process and socket
//! tables, and how it relaunches applications through the proxy.

use vstd::prelude::*;

use crate::address::{IpAddress, SocketAddress};
use crate::capture::{be_u128, be_u32, octets_u128, octets_u32};
use crate::model::{ConnectionView, NetworkConnection, NetworkProtocol};
use crate::text::chars_of;

verus! {

broadcast use vstd::string::group_string_axioms;

/// Lists the running processes.
pub struct ProcessCollector;

/// Finds the process that owns a socket.
pub struct SocketProcessResolver;

/// The edge of the square icons taken from executables, in pixels.
pub const APPLICATION_ICON_SIZE: usize = 32;

// ---------------------------------------------------------------------------
// Byte order

/// A 16-bit value with its two bytes swapped.
pub open spec fn swap16(x: u16) -> u16 {
    ((x % 256) * 256 + x / 256) as u16
}

/// A 32-bit value with its four bytes reversed.
pub open spec fn swap32(x: u32) -> u32 {
    ((x % 256) * 16777216 + ((x / 256) % 256) * 65536 + ((x / 65536) % 256) * 256 + x
        / 16777216) as u32
}

/// The four bytes of a value, least significant first.
pub open spec fn le_octets(x: u32) -> Seq<u8> {
    seq![(x % 256) as u8, ((x / 256) % 256) as u8, ((x / 65536) % 256) as u8, (x / 16777216) as u8]
}

/// The four bytes of a value, most significant first.
pub open spec fn be_octets(x: u32) -> Seq<u8> {
    seq![(x / 16777216) as u8, ((x / 65536) % 256) as u8, ((x / 256) % 256) as u8, (x % 256) as u8]
}

/// Converts a 16-bit value from network byte order.
///
/// Trusted: `u16::from_be`, which swaps the bytes on little-endian machines
/// and does nothing on big-endian ones; the contract states that it does one
/// or the other, not which.
#[verifier::external_body]
fn from_network_order(x: u16) -> (r: u16)
    ensures
        r == x || r == swap16(x),
{
    u16::from_be(x)
}

/// The bytes of a 32-bit value in memory order.
///
/// Trusted: `u32::to_ne_bytes`, which gives the bytes in the machine's own
/// order; the contract states that this is least or most significant first,
/// not which.
#[verifier::external_body]
fn native_octets(x: u32) -> (r: [u8; 4])
    ensures
        r@ == le_octets(x) || r@ == be_octets(x),
{
    x.to_ne_bytes()
}

/// The port of a socket table entry, whose low 16 bits hold it in network
/// byte order.
pub fn port(raw: u32) -> (r: u16)
    ensures
        r == (raw % 65536) as u16 || r == swap16((raw % 65536) as u16),
{
    from_network_order((raw % 65536) as u16)
}

/// The IPv4 address of a socket table entry, whose bytes in memory are the
/// address's octets.
pub fn ipv4(raw: u32) -> (r: IpAddress)
    ensures
        r == IpAddress::V4(raw) || r == IpAddress::V4(swap32(raw)),
{
    let octets = native_octets(raw);
    let v = octets_u32(octets);
    proof {
        if octets@ == be_octets(raw) {
            assert(v == raw) by (nonlinear_arith)
                requires
                    v == octets@[0] as int * 16777216 + octets@[1] as int * 65536 + octets@[2] as int
                        * 256 + octets@[3] as int,
                    octets@[0] == (raw / 16777216) as u8,
                    octets@[1] == ((raw / 65536) % 256) as u8,
                    octets@[2] == ((raw / 256) % 256) as u8,
                    octets@[3] == (raw % 256) as u8,
                    raw <= u32::MAX,
            ;
        } else {
            assert(v == swap32(raw));
        }
    }
    IpAddress::V4(v)
}

// ---------------------------------------------------------------------------
// Socket tables

/// An address as a socket table holds it: an IPv4 address as a 32-bit
/// value whose bytes in memory are its octets, an IPv6 address as its
/// sixteen octets.
#[derive(Debug, Clone, Copy, PartialEq, Eq)]
pub enum RawAddress {
    V4(u32),
    V6([u8; 16]),
}

/// An entry of a TCP socket table, as the table holds it.
#[derive(Debug, Clone, Copy, PartialEq, Eq)]
pub struct TcpOwnerRow {
    pub local_address: RawAddress,
    pub local_port: u32,
    pub remote_address: RawAddress,
    pub remote_port: u32,
    pub owning_pid: u32,
}

/// An entry of a UDP socket table, as the table holds it.
#[derive(Debug, Clone, Copy, PartialEq, Eq)]
pub struct UdpOwnerRow {
    pub local_address: RawAddress,
    pub local_port: u32,
    pub owning_pid: u32,
}

/// Which socket table holds the owner of a connection.
#[derive(Debug, Clone, Copy, PartialEq, Eq, Structural)]
pub enum OwnerTable {
    Tcp4,
    Tcp6,
    Udp4,
    Udp6,
}

/// The socket table searched for a connection's owner: TCP connections
/// whose two addresses are of one family in that family's TCP table, UDP
/// and QUIC by the family of the local address; no table otherwise.
pub open spec fn owner_table_of(c: ConnectionView) -> Option<OwnerTable> {
    match c.protocol {
        NetworkProtocol::TCP => match (c.local_ip, c.remote_ip) {
            (IpAddress::V4(_), IpAddress::V4(_)) => Some(OwnerTable::Tcp4),
            (IpAddress::V6(_), IpAddress::V6(_)) => Some(OwnerTable::Tcp6),
            _ => None,
        },
        NetworkProtocol::UDP | NetworkProtocol::QUIC => match c.local_ip {
            IpAddress::V4(_) => Some(OwnerTable::Udp4),
            IpAddress::V6(_) => Some(OwnerTable::Udp6),
        },
        _ => None,
    }
}

/// An address decoded from a table: for IPv4 whatever the machine's byte
/// order makes of it.
pub open spec fn address_decodes(raw: RawAddress, ip: IpAddress) -> bool {
    match raw {
        RawAddress::V4(x) => ip == IpAddress::V4(x) || ip == IpAddress::V4(swap32(x)),
        RawAddress::V6(b) => ip == IpAddress::V6(be_u128(b)),
    }
}

/// A port decoded from a table entry.
pub open spec fn port_decodes(raw: u32, p: u16) -> bool {
    p == (raw % 65536) as u16 || p == swap16((raw % 65536) as u16)
}

/// The address of a socket table entry.
pub fn table_address(raw: RawAddress) -> (r: IpAddress)
    ensures
        address_decodes(raw, r),
{
    match raw {
        RawAddress::V4(x) => ipv4(x),
        RawAddress::V6(b) => IpAddress::V6(octets_u128(b)),
    }
}

/// A TCP socket and the process that owns it.
#[derive(Debug, Clone, Copy, PartialEq, Eq, Structural)]
pub struct TcpOwner {
    pub local: SocketAddress,
    pub remote: SocketAddress,
    pub pid: u32,
}

/// A UDP socket and the process that owns it.
#[derive(Debug, Clone, Copy, PartialEq, Eq, Structural)]
pub struct UdpOwner {
    pub local: SocketAddress,
    pub pid: u32,
}

/// Whether `o` is what a TCP table entry says.
pub open spec fn tcp_decodes(row: TcpOwnerRow, o: TcpOwner) -> bool {
    &&& address_decodes(row.local_address, o.local.ip)
    &&& port_decodes(row.local_port, o.local.port)
    &&& address_decodes(row.remote_address, o.remote.ip)
    &&& port_decodes(row.remote_port, o.remote.port)
    &&& o.pid == row.owning_pid
}

/// Whether `o` is what a UDP table entry says.
pub open spec fn udp_decodes(row: UdpOwnerRow, o: UdpOwner) -> bool {
    &&& address_decodes(row.local_address, o.local.ip)
    &&& port_decodes(row.local_port, o.local.port)
    &&& o.pid == row.owning_pid
}

/// An address read with its bytes taken as they are stored.
pub open spec fn address_as_stored(raw: RawAddress) -> IpAddress {
    match raw {
        RawAddress::V4(x) => IpAddress::V4(x),
        RawAddress::V6(b) => IpAddress::V6(be_u128(b)),
    }
}

/// A TCP table entry read with its bytes taken as they are stored, one of
/// the readings [`tcp_decodes`] allows.
pub open spec fn tcp_read_as_stored(row: TcpOwnerRow) -> TcpOwner {
    TcpOwner {
        local: SocketAddress {
            ip: address_as_stored(row.local_address),
            port: (row.local_port % 65536) as u16,
        },
        remote: SocketAddress {
            ip: address_as_stored(row.remote_address),
            port: (row.remote_port % 65536) as u16,
        },
        pid: row.owning_pid,
    }
}

/// Whether a TCP socket is the connection's.
pub open spec fn tcp_owner_matches(o: TcpOwner, c: ConnectionView) -> bool {
    &&& o.local.ip == c.local_ip
    &&& o.local.port == c.local_port
    &&& o.remote.ip == c.remote_ip
    &&& o.remote.port == c.remote_port
}

/// The owner of the first TCP socket that is the connection's.
pub open spec fn first_tcp_owner(owners: Seq<TcpOwner>, c: ConnectionView) -> Option<u32> {
    if exists|i: int| 0 <= i < owners.len() && tcp_owner_matches(owners[i], c) {
        let i = choose|i: int|
            0 <= i < owners.len() && tcp_owner_matches(owners[i], c) && forall|j: int|
                0 <= j < i ==> !tcp_owner_matches(owners[j], c);
        Some(owners[i].pid)
    } else {
        None
    }
}

/// Whether an address is the unspecified one (`0.0.0.0` or `::`).
pub open spec fn is_unspecified(ip: IpAddress) -> bool {
    match ip {
        IpAddress::V4(b) => b == 0,
        IpAddress::V6(b) => b == 0,
    }
}

/// Whether a UDP socket may carry the connection: bound to its local port,
/// on its local address or on all addresses.
pub open spec fn udp_owner_matches(o: UdpOwner, c: ConnectionView) -> bool {
    &&& is_unspecified(o.local.ip) || o.local.ip == c.local_ip
    &&& o.local.port == c.local_port
}

/// Whether `pid` owns every UDP socket that may carry the connection, and
/// at least one.
pub open spec fn sole_udp_pid(owners: Seq<UdpOwner>, c: ConnectionView, pid: u32) -> bool {
    &&& exists|i: int| 0 <= i < owners.len() && udp_owner_matches(owners[i], c) && owners[i].pid == pid
    &&& forall|i: int| 0 <= i < owners.len() && udp_owner_matches(owners[i], c) ==> owners[i].pid == pid
}

/// The one process owning the UDP sockets that may carry the connection;
/// none when there is none, or when they belong to several processes.
pub open spec fn sole_udp_owner(owners: Seq<UdpOwner>, c: ConnectionView) -> Option<u32> {
    if exists|pid: u32| sole_udp_pid(owners, c, pid) {
        Some(choose|pid: u32| sole_udp_pid(owners, c, pid))
    } else {
        None
    }
}

impl SocketProcessResolver {
    /// The socket table searched for a connection's owner.
    pub fn owner_table(&self, connection: &NetworkConnection) -> (r: Option<OwnerTable>)
        ensures
            r == owner_table_of(connection@),
    {
        match connection.protocol {
            NetworkProtocol::TCP => match (connection.local_ip, connection.remote_ip) {
                (IpAddress::V4(_), IpAddress::V4(_)) => Some(OwnerTable::Tcp4),
                (IpAddress::V6(_), IpAddress::V6(_)) => Some(OwnerTable::Tcp6),
                _ => None,
            },
            NetworkProtocol::UDP | NetworkProtocol::QUIC => match connection.local_ip {
                IpAddress::V4(_) => Some(OwnerTable::Udp4),
                IpAddress::V6(_) => Some(OwnerTable::Udp6),
            },
            _ => None,
        }
    }

    /// The owner of the first TCP table entry that is the connection's
    /// socket.
    pub fn tcp_owner(&self, connection: &NetworkConnection, rows: &[TcpOwnerRow]) -> (r: Option<
        u32,
    >)
        ensures
            exists|owners: Seq<TcpOwner>|
                {
                    &&& owners.len() == rows@.len()
                    &&& forall|i: int|
                        0 <= i < rows@.len() ==> tcp_decodes(#[trigger] rows@[i], owners[i])
                    &&& r == first_tcp_owner(owners, connection@)
                },
    {
        let ghost c = connection@;
        let ghost mut owners: Seq<TcpOwner> = Seq::empty();
        let mut i: usize = 0;
        while i < rows.len()
            invariant
                c == connection@,
                i <= rows@.len(),
                owners.len() == i,
                forall|k: int| 0 <= k < i ==> tcp_decodes(#[trigger] rows@[k], owners[k]),
                forall|k: int| 0 <= k < i ==> !tcp_owner_matches(#[trigger] owners[k], c),
            decreases rows@.len() - i,
        {
            let row = rows[i];
            let o = TcpOwner {
                local: SocketAddress {
                    ip: table_address(row.local_address),
                    port: port(row.local_port),
                },
                remote: SocketAddress {
                    ip: table_address(row.remote_address),
                    port: port(row.remote_port),
                },
                pid: row.owning_pid,
            };
            proof {
                owners = owners.push(o);
            }
            if o.local.ip == connection.local_ip && o.local.port == connection.local_port
                && o.remote.ip == connection.remote_ip && o.remote.port == connection.remote_port {
                let ghost n = rows@.len();
                let ghost rest = Seq::new(
                    (n - owners.len()) as nat,
                    |k: int| tcp_read_as_stored(rows@[k + i + 1]),
                );
                let ghost all = owners + rest;
                proof {
                    assert forall|k: int| 0 <= k < rows@.len() implies tcp_decodes(
                        #[trigger] rows@[k],
                        all[k],
                    ) by {
                        if k > i {
                            assert(all[k] == rest[k - i - 1]);
                        }
                    }
                    assert(tcp_owner_matches(all[i as int], c));
                    let w = choose|w: int|
                        0 <= w < all.len() && tcp_owner_matches(all[w], c) && forall|j: int|
                            0 <= j < w ==> !tcp_owner_matches(all[j], c);
                    assert(0 <= i < all.len() && tcp_owner_matches(all[i as int], c) && forall|
                        j: int,
                    | 0 <= j < i ==> !tcp_owner_matches(all[j], c));
                    if w < i {
                        assert(!tcp_owner_matches(owners[w], c));
                    } else if w > i {
                        assert(!tcp_owner_matches(all[i as int], c));
                    }
                    assert(first_tcp_owner(all, c) == Some(row.owning_pid));
                }
                return Some(row.owning_pid);
            }
            i = i + 1;
        }
        proof {
            assert(first_tcp_owner(owners, c) is None);
        }
        None
    }

    /// The one process owning the UDP table entries that may carry the
    /// connection; none when there is none or they belong to several.
    pub fn udp_owner(&self, connection: &NetworkConnection, rows: &[UdpOwnerRow]) -> (r: Option<
        u32,
    >)
        ensures
            exists|owners: Seq<UdpOwner>|
                {
                    &&& owners.len() == rows@.len()
                    &&& forall|i: int|
                        0 <= i < rows@.len() ==> udp_decodes(#[trigger] rows@[i], owners[i])
                    &&& r == sole_udp_owner(owners, connection@)
                },
    {
        let ghost c = connection@;
        let ghost mut owners: Seq<UdpOwner> = Seq::empty();
        let mut found: Option<u32> = None;
        let mut several = false;
        let mut i: usize = 0;
        while i < rows.len()
            invariant
                c == connection@,
                i <= rows@.len(),
                owners.len() == i,
                forall|k: int| 0 <= k < i ==> udp_decodes(#[trigger] rows@[k], owners[k]),
                several ==> exists|a: int, b: int|
                    0 <= a < i && 0 <= b < i && udp_owner_matches(owners[a], c)
                        && udp_owner_matches(owners[b], c) && owners[a].pid != owners[b].pid,
                !several ==> match found {
                    None => forall|k: int| 0 <= k < i ==> !udp_owner_matches(#[trigger] owners[k], c),
                    Some(pid) => sole_udp_pid(owners, c, pid),
                },
            decreases rows@.len() - i,
        {
            let row = rows[i];
            let o = UdpOwner {
                local: SocketAddress {
                    ip: table_address(row.local_address),
                    port: port(row.local_port),
                },
                pid: row.owning_pid,
            };
            let ghost before = owners;
            proof {
                owners = owners.push(o);
                assert forall|k: int| 0 <= k < i implies owners[k] == before[k] by {}
            }
            let unspecified = match o.local.ip {
                IpAddress::V4(b) => b == 0,
                IpAddress::V6(b) => b == 0,
            };
            if (unspecified || o.local.ip == connection.local_ip) && o.local.port
                == connection.local_port {
                match found {
                    None => {
                        if !several {
                            found = Some(o.pid);
                            proof {
                                assert(udp_owner_matches(owners[i as int], c));
                            }
                        }
                    },
                    Some(pid) => {
                        if pid != o.pid && !several {
                            several = true;
                            proof {
                                let j = choose|j: int|
                                    0 <= j < before.len() && udp_owner_matches(before[j], c)
                                        && before[j].pid == pid;
                                assert(udp_owner_matches(owners[j], c));
                                assert(udp_owner_matches(owners[i as int], c));
                            }
                        }
                    },
                }
            }
            proof {
                if several {
                    let (a, b) = choose|a: int, b: int|
                        0 <= a < i + 1 && 0 <= b < i + 1 && udp_owner_matches(owners[a], c)
                            && udp_owner_matches(owners[b], c) && owners[a].pid != owners[b].pid;
                    assert(0 <= a < i + 1 && 0 <= b < i + 1);
                }
            }
            i = i + 1;
        }
        if several {
            proof {
                let (a, b) = choose|a: int, b: int|
                    0 <= a < i && 0 <= b < i && udp_owner_matches(owners[a], c) && udp_owner_matches(
                        owners[b],
                        c,
                    ) && owners[a].pid != owners[b].pid;
                assert forall|pid: u32| !sole_udp_pid(owners, c, pid) by {
                    if sole_udp_pid(owners, c, pid) {
                        assert(owners[a].pid == pid);
                        assert(owners[b].pid == pid);
                    }
                }
                assert(sole_udp_owner(owners, c) is None);
                assert(owners.len() == rows@.len());
            }
            None
        } else {
            proof {
                match found {
                    None => {
                        assert forall|pid: u32| !sole_udp_pid(owners, c, pid) by {}
                        assert(sole_udp_owner(owners, c) is None);
                    },
                    Some(pid) => {
                        assert forall|q: u32| sole_udp_pid(owners, c, q) implies q == pid by {
                            let k = choose|k: int|
                                0 <= k < owners.len() && udp_owner_matches(owners[k], c)
                                    && owners[k].pid == pid;
                            assert(owners[k].pid == q);
                        }
                        assert(sole_udp_pid(owners, c, pid));
                        assert(sole_udp_owner(owners, c) == Some(pid));
                    },
                }
            }
            found
        }
    }
}

// ---------------------------------------------------------------------------
// Table buffers

/// The status of a size query that a table query goes on after: success,
/// or a buffer too small.
pub open spec fn size_query_usable(status: u32) -> bool {
    status == 0 || status == 122
}

/// Whether a table query goes on after asking for the table's size:
/// `NO_ERROR` and `ERROR_INSUFFICIENT_BUFFER` say the size is known.
pub fn table_size_known(status: u32) -> (r: bool)
    ensures
        r == size_query_usable(status),
{
    status == 0 || status == 122
}

/// The number of words of `word_size` bytes that hold `byte_count` bytes.
pub fn table_buffer_words(byte_count: u32, word_size: usize) -> (r: usize)
    requires
        word_size > 0,
    ensures
        r * word_size >= byte_count,
        r == 0 || (r - 1) * word_size < byte_count,
{
    let bytes = byte_count as usize;
    let whole = bytes / word_size;
    assert(bytes == whole * word_size + bytes % word_size && whole <= whole * word_size)
        by (nonlinear_arith)
        requires
            word_size > 0,
            whole == bytes / word_size,
    ;
    let r = if bytes % word_size == 0 {
        whole
    } else {
        whole + 1
    };
    proof {
        assert(bytes == whole * word_size + bytes % word_size) by (nonlinear_arith)
            requires
                word_size > 0,
                whole == bytes / word_size,
        ;
        if bytes % word_size == 0 {
            assert(r * word_size == bytes);
            if r > 0 {
                assert((r - 1) * word_size == r * word_size - word_size) by (nonlinear_arith);
            }
        } else {
            assert(r * word_size == whole * word_size + word_size) by (nonlinear_arith)
                requires
                    r == whole + 1,
            ;
            assert((r - 1) * word_size == whole * word_size);
        }
    }
    r
}

// ---------------------------------------------------------------------------
// Processes and windows

/// The code points UTF-16 code units decode to, as
/// `String::from_utf16_lossy` decodes them: a unit outside the surrogate
/// range is itself; a high surrogate followed by a low one is the
/// supplementary code point they encode; any other surrogate is U+FFFD.
pub open spec fn utf16_code_points(units: Seq<u16>) -> Seq<u32>
    decreases units.len(),
{
    if units.len() == 0 {
        Seq::empty()
    } else if units[0] < 0xD800 || units[0] > 0xDFFF {
        seq![units[0] as u32] + utf16_code_points(units.drop_first())
    } else if units[0] <= 0xDBFF && units.len() >= 2 && 0xDC00 <= units[1] && units[1] <= 0xDFFF {
        seq![(0x10000 + (units[0] - 0xD800) * 0x400 + (units[1] - 0xDC00)) as u32]
            + utf16_code_points(units.subrange(2, units.len() as int))
    } else {
        seq![0xFFFDu32] + utf16_code_points(units.drop_first())
    }
}

/// The code points of a text.
pub open spec fn code_points(s: Seq<char>) -> Seq<u32> {
    s.map_values(|c: char| c as u32)
}

/// Decodes UTF-16, replacing what is not valid by U+FFFD.
///
/// Trusted: `String::from_utf16_lossy`, which decodes as
/// `char::decode_utf16` does and puts U+FFFD for each unpaired surrogate;
/// the contract states this over `utf16_code_points`.
#[verifier::external_body]
fn utf16_lossy(units: &[u16]) -> (r: String)
    ensures
        code_points(r@) == utf16_code_points(units@),
{
    String::from_utf16_lossy(units)
}

/// The length of a NUL-terminated UTF-16 name: the position of the first
/// NUL, or the whole buffer when there is none.
pub open spec fn nul_terminated_len(units: Seq<u16>) -> int {
    if exists|i: int| 0 <= i < units.len() && units[i] == 0 {
        choose|i: int| 0 <= i < units.len() && units[i] == 0 && forall|j: int| 0 <= j < i ==> units[j] != 0
    } else {
        units.len() as int
    }
}

/// The name held in a fixed NUL-terminated UTF-16 buffer, as a process
/// snapshot entry holds a process's executable name.
pub fn process_name(units: &[u16]) -> (r: String)
    ensures
        code_points(r@) == utf16_code_points(units@.subrange(0, nul_terminated_len(units@))),
{
    let mut name: Vec<u16> = Vec::new();
    let mut i: usize = 0;
    while i < units.len() && units[i] != 0
        invariant
            i <= units@.len(),
            name@ == units@.subrange(0, i as int),
            forall|j: int| 0 <= j < i ==> units@[j] != 0,
        decreases units@.len() - i,
    {
        name.push(units[i]);
        assert(units@.subrange(0, i + 1) =~= units@.subrange(0, i as int).push(units@[i as int]));
        i = i + 1;
    }
    proof {
        if i < units.len() {
            let w = choose|w: int|
                0 <= w < units@.len() && units@[w] == 0 && forall|j: int| 0 <= j < w ==> units@[j] != 0;
            assert(0 <= i < units@.len() && units@[i as int] == 0 && forall|j: int|
                0 <= j < i ==> units@[j] != 0);
            if w < i {
                assert(units@[w] != 0);
            } else if w > i {
                assert(units@[i as int] != 0);
            }
            assert(nul_terminated_len(units@) == i);
        } else {
            assert(nul_terminated_len(units@) == i);
        }
    }
    utf16_lossy(name.as_slice())
}

/// Whether a top-level window marks its process as an open application: it
/// is visible, has a title, and belongs to a process.
pub fn is_application_window(visible: bool, title_length: i32, pid: u32) -> (r: bool)
    ensures
        r == (visible && title_length > 0 && pid != 0),
{
    visible && title_length > 0 && pid != 0
}

/// Icon pixels as the view draws them: each whole four-byte pixel from
/// blue-green-red-alpha to red-green-blue-alpha order; a trailing partial
/// pixel is dropped.
pub open spec fn rgba_pixels(bgra: Seq<u8>) -> Seq<u8> {
    Seq::new(
        ((bgra.len() / 4) * 4) as nat,
        |i: int|
            {
                let base = (i / 4) * 4;
                let k = i % 4;
                if k == 0 {
                    bgra[base + 2]
                } else if k == 2 {
                    bgra[base]
                } else {
                    bgra[base + k]
                }
            },
    )
}

/// Reorders icon pixels from blue-green-red-alpha to red-green-blue-alpha.
pub fn bgra_to_rgba(bgra: &[u8]) -> (r: Vec<u8>)
    ensures
        r@ == rgba_pixels(bgra@),
{
    let n = bgra.len() / 4;
    let mut out: Vec<u8> = Vec::new();
    let mut p: usize = 0;
    while p < n
        invariant
            n == bgra@.len() / 4,
            p <= n,
            out@.len() == p * 4,
            forall|i: int| 0 <= i < p * 4 ==> #[trigger] out@[i] == rgba_pixels(bgra@)[i],
        decreases n - p,
    {
        assert(p * 4 + 3 < bgra@.len()) by (nonlinear_arith)
            requires
                p < n,
                n == bgra@.len() / 4,
        ;
        assert(bgra@.len() <= usize::MAX) by {
            assert(bgra@.len() == bgra.len());
        }
        let base = p * 4;
        out.push(bgra[base + 2]);
        out.push(bgra[base + 1]);
        out.push(bgra[base]);
        out.push(bgra[base + 3]);
        proof {
            assert forall|i: int| 0 <= i < (p + 1) * 4 implies #[trigger] out@[i] == rgba_pixels(
                bgra@,
            )[i] by {
                if i >= p * 4 {
                    assert(i / 4 == p as int && i % 4 == i - p * 4) by (nonlinear_arith)
                        requires
                            p * 4 <= i < (p + 1) * 4,
                    ;
                    assert((n * 4) <= bgra@.len()) by (nonlinear_arith)
                        requires
                            n == bgra@.len() / 4,
                    ;
                    assert(i < (bgra@.len() / 4) * 4) by (nonlinear_arith)
                        requires
                            i < (p + 1) * 4,
                            p < n,
                            n == bgra@.len() / 4,
                    ;
                }
            }
        }
        p = p + 1;
    }
    assert(out@ =~= rgba_pixels(bgra@));
    out
}

// ---------------------------------------------------------------------------
// Relaunching through the proxy

/// The environment variables a relaunched application is started with:
/// both common proxy variables name the proxy.
pub open spec fn proxy_environment_view(proxy: Seq<char>) -> Seq<(Seq<char>, Seq<char>)> {
    seq![("HTTP_PROXY"@, proxy), ("HTTPS_PROXY"@, proxy)]
}

/// The environment variables a relaunched application is started with.
pub fn proxy_environment(proxy: &str) -> (r: Vec<(String, String)>)
    ensures
        r@.len() == 2,
        forall|i: int|
            0 <= i < 2 ==> (#[trigger] r@[i]).0@ == proxy_environment_view(proxy@)[i].0 && r@[i].1@
                == proxy_environment_view(proxy@)[i].1,
{
    let mut r: Vec<(String, String)> = Vec::new();
    r.push((String::from_str("HTTP_PROXY"), proxy.to_string()));
    r.push((String::from_str("HTTPS_PROXY"), proxy.to_string()));
    r
}

/// Refuses to relaunch the process this library runs in.
pub fn relaunch_self_check(pid: u32, own_pid: u32) -> (r: Result<(), String>)
    ensures
        pid == own_pid <==> r is Err,
        r matches Err(e) ==> e@ == "AppWatch cannot relaunch itself"@,
{
    if pid == own_pid {
        Err(String::from_str("AppWatch cannot relaunch itself"))
    } else {
        Ok(())
    }
}

/// `s` without the occurrences of `x`, in order.
pub open spec fn without(s: Seq<u32>, x: u32) -> Seq<u32>
    decreases s.len(),
{
    if s.len() == 0 {
        s
    } else if s.last() == x {
        without(s.drop_last(), x)
    } else {
        without(s.drop_last(), x).push(s.last())
    }
}

/// The open applications that are relaunched: all but this process.
pub fn relaunch_candidates(pids: &[u32], own_pid: u32) -> (r: Vec<u32>)
    ensures
        r@ == without(pids@, own_pid),
{
    let mut out: Vec<u32> = Vec::new();
    let mut i: usize = 0;
    while i < pids.len()
        invariant
            i <= pids@.len(),
            out@ == without(pids@.subrange(0, i as int), own_pid),
        decreases pids@.len() - i,
    {
        assert(pids@.subrange(0, i + 1).drop_last() =~= pids@.subrange(0, i as int));
        if pids[i] != own_pid {
            out.push(pids[i]);
        }
        i = i + 1;
    }
    assert(pids@.subrange(0, pids@.len() as int) =~= pids@);
    out
}

/// How many relaunches succeeded and how many failed.
#[derive(Debug, Clone, Copy, PartialEq, Eq, Structural)]
pub struct RelaunchSummary {
    pub relaunched: usize,
    pub failed: usize,
}

impl Default for RelaunchSummary {
    fn default() -> (r: Self)
        ensures
            r.relaunched == 0 && r.failed == 0,
    {
        RelaunchSummary { relaunched: 0, failed: 0 }
    }
}

/// How many of the outcomes are `b`.
pub open spec fn count_of(s: Seq<bool>, b: bool) -> nat
    decreases s.len(),
{
    if s.len() == 0 {
        0
    } else {
        count_of(s.drop_last(), b) + if s.last() == b {
            1nat
        } else {
            0nat
        }
    }
}

proof fn lemma_counts_total(s: Seq<bool>)
    ensures
        count_of(s, true) + count_of(s, false) == s.len(),
    decreases s.len(),
{
    if s.len() > 0 {
        lemma_counts_total(s.drop_last());
    }
}

/// Counts relaunch outcomes, `true` for a relaunch that succeeded.
pub fn summarize_relaunches(outcomes: &[bool]) -> (r: RelaunchSummary)
    ensures
        r.relaunched == count_of(outcomes@, true),
        r.failed == count_of(outcomes@, false),
{
    let mut summary = RelaunchSummary::default();
    let mut i: usize = 0;
    while i < outcomes.len()
        invariant
            i <= outcomes@.len(),
            summary.relaunched == count_of(outcomes@.subrange(0, i as int), true),
            summary.failed == count_of(outcomes@.subrange(0, i as int), false),
        decreases outcomes@.len() - i,
    {
        proof {
            assert(outcomes@.subrange(0, i + 1).drop_last() =~= outcomes@.subrange(0, i as int));
            lemma_counts_total(outcomes@.subrange(0, i as int));
        }
        if outcomes[i] {
            summary.relaunched = summary.relaunched + 1;
        } else {
            summary.failed = summary.failed + 1;
        }
        i = i + 1;
    }
    assert(outcomes@.subrange(0, outcomes@.len() as int) =~= outcomes@);
    summary
}

} // verus!
