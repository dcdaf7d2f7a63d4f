//! IP and socket addresses and their standard textual forms.

use vstd::prelude::*;

use crate::text::{decimal_text, extend_chars, push_decimal, string_from_chars};

verus! {

broadcast use vstd::string::group_string_axioms;

/// An IP address, held as the big-endian integer of its octets (the value
/// `u32::from(Ipv4Addr)` or `u128::from(Ipv6Addr)` gives).
#[derive(Debug, Clone, Copy, PartialEq, Eq, Hash, Structural)]
pub enum IpAddress {
    V4(u32),
    V6(u128),
}

/// An IP address with a port.
#[derive(Debug, Clone, Copy, PartialEq, Eq, Hash, Structural)]
pub struct SocketAddress {
    pub ip: IpAddress,
    pub port: u16,
}

impl IpAddress {
    /// The IPv4 address with the given octets.
    pub fn v4(a: u8, b: u8, c: u8, d: u8) -> (r: IpAddress)
        ensures
            r == IpAddress::V4(((a as u32) * 16777216 + (b as u32) * 65536 + (c as u32) * 256
                + d as u32) as u32),
    {
        IpAddress::V4((a as u32) * 16777216 + (b as u32) * 65536 + (c as u32) * 256 + d as u32)
    }
}

// ---------------------------------------------------------------------------
// IPv4

/// The `k`-th octet of an IPv4 address, most significant first.
pub open spec fn octet(bits: u32, k: int) -> nat {
    if k == 0 {
        (bits / 16777216) as nat
    } else if k == 1 {
        ((bits / 65536) % 256) as nat
    } else if k == 2 {
        ((bits / 256) % 256) as nat
    } else {
        (bits % 256) as nat
    }
}

/// The dotted-decimal form of an IPv4 address.
pub open spec fn ipv4_text(bits: u32) -> Seq<char> {
    decimal_text(octet(bits, 0)) + "."@ + decimal_text(octet(bits, 1)) + "."@ + decimal_text(
        octet(bits, 2),
    ) + "."@ + decimal_text(octet(bits, 3))
}

fn push_ipv4_text(out: &mut Vec<char>, b: u32)
    ensures
        final(out)@ == old(out)@ + ipv4_text(b),
{
    push_decimal(out, (b / 16777216) as u64);
    extend_chars(out, ".");
    push_decimal(out, ((b / 65536) % 256) as u64);
    extend_chars(out, ".");
    push_decimal(out, ((b / 256) % 256) as u64);
    extend_chars(out, ".");
    push_decimal(out, (b % 256) as u64);
    assert(final(out)@ =~= old(out)@ + ipv4_text(b));
}

// ---------------------------------------------------------------------------
// IPv6 (RFC 5952 text, as `Display` for `Ipv6Addr` writes it)

/// The divisor that brings the `i`-th 16-bit group down to the low bits.
pub open spec fn group_divisor(i: int) -> u128 {
    if i == 0 {
        0x1_0000_0000_0000_0000_0000_0000_0000u128
    } else if i == 1 {
        0x1_0000_0000_0000_0000_0000_0000u128
    } else if i == 2 {
        0x1_0000_0000_0000_0000_0000u128
    } else if i == 3 {
        0x1_0000_0000_0000_0000u128
    } else if i == 4 {
        0x1_0000_0000_0000u128
    } else if i == 5 {
        0x1_0000_0000u128
    } else if i == 6 {
        0x1_0000u128
    } else {
        1u128
    }
}

/// The eight 16-bit groups of an IPv6 address, most significant first.
pub open spec fn groups(bits: u128) -> Seq<u16> {
    Seq::new(8, |i: int| ((bits / group_divisor(i)) % 65536) as u16)
}

/// Whether an IPv6 address is an IPv4-mapped address `::ffff:a.b.c.d`.
pub open spec fn is_ipv4_mapped(bits: u128) -> bool {
    bits / 0x1_0000_0000u128 == 0xffffu128
}

/// The number of consecutive zero groups starting at position `i`.
pub open spec fn zero_run(g: Seq<u16>, i: int) -> nat
    decreases g.len() - i,
{
    if 0 <= i < g.len() && g[i] == 0 {
        1 + zero_run(g, i + 1)
    } else {
        0
    }
}

/// Whether `i` starts the leftmost longest run of zero groups.
pub open spec fn is_longest_zero_run(g: Seq<u16>, i: int) -> bool {
    &&& 0 <= i < g.len()
    &&& forall|j: int| 0 <= j < g.len() ==> zero_run(g, j) <= zero_run(g, i)
    &&& forall|j: int| 0 <= j < i ==> zero_run(g, j) < zero_run(g, i)
}

/// The start of the leftmost longest run of zero groups.
pub open spec fn longest_zero_run(g: Seq<u16>) -> int {
    choose|i: int| is_longest_zero_run(g, i)
}

/// The digit for a value below sixteen, in lowercase.
pub open spec fn hex_digit(d: nat) -> char {
    if d < 10 {
        ((48 + d) as u32) as char
    } else {
        ((87 + d) as u32) as char
    }
}

/// Lowercase hexadecimal without leading zeros, as `{:x}` writes it.
pub open spec fn hex_text(n: nat) -> Seq<char>
    decreases n,
{
    if n < 16 {
        seq![hex_digit(n)]
    } else {
        hex_text(n / 16).push(hex_digit(n % 16))
    }
}

/// Groups in hexadecimal, separated by colons.
pub open spec fn groups_text(g: Seq<u16>) -> Seq<char>
    decreases g.len(),
{
    if g.len() == 0 {
        Seq::empty()
    } else if g.len() == 1 {
        hex_text(g[0] as nat)
    } else {
        groups_text(g.drop_last()) + ":"@ + hex_text(g.last() as nat)
    }
}

/// The text of an IPv6 address: IPv4-mapped addresses as `::ffff:a.b.c.d`;
/// otherwise the groups in lowercase hexadecimal with the leftmost longest
/// run of two or more zero groups written as `::`.
pub open spec fn ipv6_text(bits: u128) -> Seq<char> {
    if is_ipv4_mapped(bits) {
        "::ffff:"@ + ipv4_text((bits % 0x1_0000_0000u128) as u32)
    } else {
        let g = groups(bits);
        let start = longest_zero_run(g);
        let len = zero_run(g, start);
        if len > 1 {
            groups_text(g.subrange(0, start)) + "::"@ + groups_text(
                g.subrange(start + len, 8),
            )
        } else {
            groups_text(g)
        }
    }
}

fn hex_char(d: u16) -> (c: char)
    requires
        d < 16,
    ensures
        c == hex_digit(d as nat),
{
    if d < 10 {
        let b: u8 = 48u8 + (d as u8);
        b as char
    } else {
        let b: u8 = 87u8 + (d as u8);
        b as char
    }
}

fn push_hex(out: &mut Vec<char>, n: u16)
    ensures
        final(out)@ == old(out)@ + hex_text(n as nat),
    decreases n,
{
    if n >= 16 {
        push_hex(out, n / 16);
    }
    let c = hex_char(n % 16);
    out.push(c);
    proof {
        if n < 16 {
            assert(old(out)@ + hex_text(n as nat) =~= old(out)@.push(c));
        } else {
            assert((old(out)@ + hex_text((n / 16) as nat)).push(c) =~= old(out)@ + hex_text(
                n as nat,
            ));
        }
    }
}

proof fn lemma_groups_text_step(g: Seq<u16>, n: int)
    requires
        0 <= n < g.len(),
    ensures
        groups_text(g.subrange(0, n + 1)) == if n == 0 {
            hex_text(g[0] as nat)
        } else {
            groups_text(g.subrange(0, n)) + ":"@ + hex_text(g[n] as nat)
        },
{
    let next = g.subrange(0, n + 1);
    assert(next.drop_last() =~= g.subrange(0, n));
    assert(next.last() == g[n]);
    if n == 0 {
        assert(next.len() == 1);
        assert(next[0] == g[0]);
    }
}

fn push_groups(out: &mut Vec<char>, g: &Vec<u16>, from: usize, to: usize)
    requires
        from <= to <= g@.len(),
    ensures
        final(out)@ == old(out)@ + groups_text(g@.subrange(from as int, to as int)),
{
    let ghost part = g@.subrange(from as int, to as int);
    let mut i = from;
    while i < to
        invariant
            from <= i <= to <= g@.len(),
            part == g@.subrange(from as int, to as int),
            out@ == old(out)@ + groups_text(part.subrange(0, i - from)),
        decreases to - i,
    {
        let ghost n = i - from;
        proof {
            lemma_groups_text_step(part, n);
            assert(part[n] == g@[i as int]);
        }
        if i > from {
            extend_chars(out, ":");
        }
        push_hex(out, g[i]);
        assert(out@ =~= old(out)@ + groups_text(part.subrange(0, n + 1)));
        i = i + 1;
    }
    assert(part.subrange(0, to - from) =~= part);
}

proof fn lemma_zero_run_step(g: Seq<u16>, i: int)
    requires
        0 <= i < g.len(),
    ensures
        zero_run(g, i) == if g[i] == 0 {
            1 + zero_run(g, i + 1)
        } else {
            0
        },
{
}

proof fn lemma_zero_run_bound(g: Seq<u16>, i: int)
    requires
        0 <= i <= g.len(),
    ensures
        i + zero_run(g, i) <= g.len(),
    decreases g.len() - i,
{
    if i < g.len() && g[i] == 0 {
        lemma_zero_run_bound(g, i + 1);
    }
}

fn push_ipv6_text(out: &mut Vec<char>, bits: u128)
    ensures
        final(out)@ == old(out)@ + ipv6_text(bits),
{
    if bits / 0x1_0000_0000u128 == 0xffffu128 {
        extend_chars(out, "::ffff:");
        push_ipv4_text(out, (bits % 0x1_0000_0000u128) as u32);
        assert(final(out)@ =~= old(out)@ + ipv6_text(bits));
        return;
    }
    let mut g: Vec<u16> = Vec::new();
    g.push(((bits / 0x1_0000_0000_0000_0000_0000_0000_0000u128) % 65536) as u16);
    g.push(((bits / 0x1_0000_0000_0000_0000_0000_0000u128) % 65536) as u16);
    g.push(((bits / 0x1_0000_0000_0000_0000_0000u128) % 65536) as u16);
    g.push(((bits / 0x1_0000_0000_0000_0000u128) % 65536) as u16);
    g.push(((bits / 0x1_0000_0000_0000u128) % 65536) as u16);
    g.push(((bits / 0x1_0000_0000u128) % 65536) as u16);
    g.push(((bits / 0x1_0000u128) % 65536) as u16);
    g.push((bits % 65536) as u16);
    let ghost gs = groups(bits);
    assert(g@[0] == gs[0]);
    assert(g@[1] == gs[1]);
    assert(g@[2] == gs[2]);
    assert(g@[3] == gs[3]);
    assert(g@[4] == gs[4]);
    assert(g@[5] == gs[5]);
    assert(g@[6] == gs[6]);
    assert(bits / 1u128 == bits) by (nonlinear_arith);
    assert(g@[7] == gs[7]);
    assert(g@ =~= gs);
    // zero-run lengths, computed from the right
    let mut runs: Vec<u64> = Vec::new();
    let mut k: usize = 0;
    while k < 8
        invariant
            k <= 8,
            runs@.len() == k,
            forall|m: int| 0 <= m < k ==> runs@[m] == 0,
            g@ == gs,
            gs.len() == 8,
        decreases 8 - k,
    {
        runs.push(0);
        k = k + 1;
    }
    let mut i: usize = 8;
    while i > 0
        invariant
            i <= 8,
            runs@.len() == 8,
            g@ == gs,
            gs.len() == 8,
            forall|j: int| i <= j < 8 ==> runs@[j] == zero_run(gs, j),
            forall|j: int| 0 <= j < 8 ==> runs@[j] <= 8,
        decreases i,
    {
        i = i - 1;
        proof {
            lemma_zero_run_step(gs, i as int);
            lemma_zero_run_bound(gs, i as int);
        }
        if g[i] == 0 {
            let next: u64 = if i + 1 < 8 {
                runs[i + 1] + 1
            } else {
                1
            };
            runs.set(i, next);
        } else {
            runs.set(i, 0);
        }
    }
    // leftmost longest run
    let mut best: usize = 0;
    let mut j: usize = 1;
    while j < 8
        invariant
            1 <= j <= 8,
            best < j,
            runs@.len() == 8,
            forall|m: int| 0 <= m < 8 ==> runs@[m] == zero_run(gs, m),
            forall|m: int| 0 <= m < j ==> zero_run(gs, m) <= zero_run(gs, best as int),
            forall|m: int| 0 <= m < best ==> zero_run(gs, m) < zero_run(gs, best as int),
        decreases 8 - j,
    {
        if runs[j] > runs[best] {
            best = j;
        }
        j = j + 1;
    }
    proof {
        assert(is_longest_zero_run(gs, best as int));
        let c = longest_zero_run(gs);
        assert(is_longest_zero_run(gs, c));
        if c < best {
            assert(zero_run(gs, c) < zero_run(gs, best as int));
        } else if c > best {
            assert(zero_run(gs, best as int) < zero_run(gs, c));
        }
        lemma_zero_run_bound(gs, best as int);
    }
    let len = runs[best];
    if len > 1 {
        push_groups(out, &g, 0, best);
        extend_chars(out, "::");
        push_groups(out, &g, best + (len as usize), 8);
        assert(final(out)@ =~= old(out)@ + ipv6_text(bits));
    } else {
        push_groups(out, &g, 0, 8);
        assert(gs.subrange(0, 8) =~= gs);
        assert(final(out)@ =~= old(out)@ + ipv6_text(bits));
    }
}

// ---------------------------------------------------------------------------
// Addresses as text

/// The text that `Display` gives an IP address.
pub open spec fn ip_text(ip: IpAddress) -> Seq<char> {
    match ip {
        IpAddress::V4(b) => ipv4_text(b),
        IpAddress::V6(b) => ipv6_text(b),
    }
}

/// The text that `Display` gives a socket address: `a.b.c.d:port` for
/// IPv4 and `[address]:port` for IPv6.
pub open spec fn socket_text(ip: IpAddress, port: u16) -> Seq<char> {
    match ip {
        IpAddress::V4(_) => ip_text(ip) + ":"@ + decimal_text(port as nat),
        IpAddress::V6(_) => "["@ + ip_text(ip) + "]:"@ + decimal_text(port as nat),
    }
}

/// Appends the text of an IP address.
pub fn push_ip_text(out: &mut Vec<char>, ip: IpAddress)
    ensures
        final(out)@ == old(out)@ + ip_text(ip),
{
    match ip {
        IpAddress::V4(b) => push_ipv4_text(out, b),
        IpAddress::V6(b) => push_ipv6_text(out, b),
    }
}

/// Appends the text of a socket address.
pub fn push_socket_text(out: &mut Vec<char>, ip: IpAddress, port: u16)
    ensures
        final(out)@ == old(out)@ + socket_text(ip, port),
{
    match ip {
        IpAddress::V4(_) => {
            push_ip_text(out, ip);
            extend_chars(out, ":");
            push_decimal(out, port as u64);
            assert(final(out)@ =~= old(out)@ + socket_text(ip, port));
        },
        IpAddress::V6(_) => {
            extend_chars(out, "[");
            push_ip_text(out, ip);
            extend_chars(out, "]:");
            push_decimal(out, port as u64);
            assert(final(out)@ =~= old(out)@ + socket_text(ip, port));
        },
    }
}

/// The text of an IP address.
pub fn ip_string(ip: IpAddress) -> (r: String)
    ensures
        r@ == ip_text(ip),
{
    let mut out: Vec<char> = Vec::new();
    push_ip_text(&mut out, ip);
    assert(Seq::<char>::empty() + ip_text(ip) =~= ip_text(ip));
    string_from_chars(&out)
}

/// The text of a socket address.
pub fn socket_string(ip: IpAddress, port: u16) -> (r: String)
    ensures
        r@ == socket_text(ip, port),
{
    let mut out: Vec<char> = Vec::new();
    push_socket_text(&mut out, ip, port);
    assert(Seq::<char>::empty() + socket_text(ip, port) =~= socket_text(ip, port));
    string_from_chars(&out)
}

} // verus!
