//! Conversions from observed traffic into displayed rows, and the order in
//! which processes are listed.

use vstd::prelude::*;

use std::collections::HashMap;

use crate::address::{
    push_socket_text, socket_string, socket_text, ip_string, ip_text, IpAddress, SocketAddress,
};
use crate::capture::current_time;
use crate::correlation::{observed_entries, TrafficCorrelator};
use crate::model::{
    clone_bytes, clone_headers, clone_text, ConnectionDirection, ConnectionView, CapturedPacket,
    EventView, HttpRequestInfo, IpVersion, NetworkConnection, NetworkEvent as CoreEvent,
    NetworkProtocol, ProcessInfo, ProcessView, RequestView,
};
use crate::text::{
    decimal_text, push_decimal, chars_of, equal_ignoring_ascii_case, split_words, str_eq_ignore_ascii_case, string_from_chars,
    to_lowercase, trim_chars, trimmed, unicode_lowercase, words, extend_chars, extend_with,
};
use crate::system::RelaunchSummary;
use crate::ui::domain::{kind_label, EventKind, NetworkEvent, Process, ProcessRowView, RowView};

verus! {

broadcast use vstd::string::group_string_axioms, vstd::std_specs::hash::group_hash_axioms;

// ---------------------------------------------------------------------------
// Listing order

/// Lexicographic order on character sequences, characters compared by
/// code point (the order of `str`'s `Ord`, since UTF-8 keeps code point
/// order).
pub open spec fn text_less(a: Seq<char>, b: Seq<char>) -> bool
    decreases a.len(),
{
    if b.len() == 0 {
        false
    } else if a.len() == 0 {
        true
    } else if a[0] != b[0] {
        (a[0] as int) < (b[0] as int)
    } else {
        text_less(a.drop_first(), b.drop_first())
    }
}

/// Whether `a` is listed before `b` whatever their positions: applications
/// come first, then the lowercased names in order.
pub open spec fn ranks_before(a: ProcessRowView, b: ProcessRowView) -> bool {
    (a.application && !b.application) || (a.application == b.application && text_less(
        unicode_lowercase(a.name),
        unicode_lowercase(b.name),
    ))
}

/// Whether two processes have the same place in the order.
pub open spec fn same_rank(a: ProcessRowView, b: ProcessRowView) -> bool {
    a.application == b.application && unicode_lowercase(a.name) == unicode_lowercase(b.name)
}

/// `perm` lists each index below `n` exactly once.
pub open spec fn is_permutation(perm: Seq<int>, n: nat) -> bool {
    &&& perm.len() == n
    &&& forall|k: int| 0 <= k < n ==> 0 <= #[trigger] perm[k] < n
    &&& forall|k: int, l: int| 0 <= k < l < n ==> perm[k] != perm[l]
}

/// `after` holds the processes of `before` with `perm` saying where each
/// came from, ordered by rank, and processes of the same rank in their
/// former order.
pub open spec fn prioritised_by(
    before: Seq<ProcessRowView>,
    after: Seq<ProcessRowView>,
    perm: Seq<int>,
) -> bool {
    &&& after.len() == before.len()
    &&& is_permutation(perm, before.len())
    &&& forall|k: int| 0 <= k < after.len() ==> after[k] == before[#[trigger] perm[k]]
    &&& forall|k: int, l: int|
        0 <= k < l < after.len() ==> !ranks_before(#[trigger] after[l], #[trigger] after[k])
    &&& forall|k: int, l: int|
        0 <= k < l < after.len() && same_rank(#[trigger] after[k], #[trigger] after[l]) ==> perm[k]
            < perm[l]
}

/// `after` is `before` sorted stably by rank.
pub open spec fn prioritised(before: Seq<ProcessRowView>, after: Seq<ProcessRowView>) -> bool {
    exists|perm: Seq<int>| prioritised_by(before, after, perm)
}

/// No sequence comes before itself, and two never come before each other.
pub proof fn lemma_text_less_asymmetric(a: Seq<char>, b: Seq<char>)
    ensures
        text_less(a, b) ==> !text_less(b, a),
    decreases a.len(),
{
    if a.len() > 0 && b.len() > 0 && a[0] == b[0] {
        lemma_text_less_asymmetric(a.drop_first(), b.drop_first());
    }
}

/// Whatever `b` is, `a` before `c` puts `b` after `a` or before `c`.
pub proof fn lemma_text_less_split(a: Seq<char>, b: Seq<char>, c: Seq<char>)
    ensures
        text_less(a, c) ==> text_less(a, b) || text_less(b, c),
    decreases a.len(),
{
    if c.len() == 0 {
    } else if a.len() == 0 {
    } else if b.len() == 0 {
    } else if a[0] == b[0] && b[0] == c[0] {
        lemma_text_less_split(a.drop_first(), b.drop_first(), c.drop_first());
    } else {
        assert(text_less(a, c) == (if a[0] != c[0] {
            (a[0] as int) < (c[0] as int)
        } else {
            text_less(a.drop_first(), c.drop_first())
        }));
        assert(text_less(a, b) == (if a[0] != b[0] {
            (a[0] as int) < (b[0] as int)
        } else {
            text_less(a.drop_first(), b.drop_first())
        }));
        assert(text_less(b, c) == (if b[0] != c[0] {
            (b[0] as int) < (c[0] as int)
        } else {
            text_less(b.drop_first(), c.drop_first())
        }));
        if a[0] == b[0] {
            assert(b[0] != c[0]);
        } else if b[0] == c[0] {
            assert(a[0] != c[0]);
        }
    }
}

/// The rank order is asymmetric and never holds between equal ranks.
pub proof fn lemma_ranks_asymmetric(a: ProcessRowView, b: ProcessRowView)
    ensures
        ranks_before(a, b) ==> !ranks_before(b, a),
        same_rank(a, b) ==> !ranks_before(a, b),
{
    lemma_text_less_asymmetric(unicode_lowercase(a.name), unicode_lowercase(b.name));
    lemma_text_less_asymmetric(unicode_lowercase(a.name), unicode_lowercase(a.name));
}

/// Whatever `b` is, `a` before `c` puts `b` after `a` or before `c`.
pub proof fn lemma_ranks_split(a: ProcessRowView, b: ProcessRowView, c: ProcessRowView)
    ensures
        ranks_before(a, c) ==> ranks_before(a, b) || ranks_before(b, c),
{
    lemma_text_less_split(
        unicode_lowercase(a.name),
        unicode_lowercase(b.name),
        unicode_lowercase(c.name),
    );
}

/// Whether one character sequence comes before another.
pub fn text_before(a: &Vec<char>, b: &Vec<char>) -> (r: bool)
    ensures
        r == text_less(a@, b@),
{
    let mut i: usize = 0;
    assert(a@.subrange(0, a@.len() as int) =~= a@);
    assert(b@.subrange(0, b@.len() as int) =~= b@);
    while i < a.len() && i < b.len() && a[i] == b[i]
        invariant
            i <= a@.len(),
            i <= b@.len(),
            text_less(a@, b@) == text_less(
                a@.subrange(i as int, a@.len() as int),
                b@.subrange(i as int, b@.len() as int),
            ),
        decreases a@.len() - i,
    {
        let ghost sa = a@.subrange(i as int, a@.len() as int);
        let ghost sb = b@.subrange(i as int, b@.len() as int);
        assert(sa.drop_first() =~= a@.subrange(i + 1, a@.len() as int));
        assert(sb.drop_first() =~= b@.subrange(i + 1, b@.len() as int));
        i = i + 1;
    }
    let ghost sa = a@.subrange(i as int, a@.len() as int);
    let ghost sb = b@.subrange(i as int, b@.len() as int);
    if i == b.len() {
        assert(sb.len() == 0);
        false
    } else if i == a.len() {
        assert(sa.len() == 0);
        true
    } else {
        assert(sa[0] == a@[i as int] && sb[0] == b@[i as int]);
        a[i] < b[i]
    }
}

/// The first `i` processes are in rank order.
pub open spec fn ranked_prefix(d: Seq<ProcessRowView>, i: int) -> bool {
    forall|k: int, l: int| 0 <= k < l < i ==> !ranks_before(#[trigger] d[l], #[trigger] d[k])
}

/// Among the first `i` processes, those of the same rank keep their order.
pub open spec fn stable_prefix(d: Seq<ProcessRowView>, perm: Seq<int>, i: int) -> bool {
    forall|k: int, l: int|
        0 <= k < l < i && same_rank(#[trigger] d[k], #[trigger] d[l]) ==> perm[k] < perm[l]
}

/// What holds before each step of the insertion: `d` is `before` moved by
/// `perm`, whose first `i` entries are sorted and come from the first `i`
/// places, and which leaves the rest where they were.
pub open spec fn insertion_state(
    before: Seq<ProcessRowView>,
    d: Seq<ProcessRowView>,
    perm: Seq<int>,
    i: int,
) -> bool {
    &&& d.len() == before.len()
    &&& 0 <= i <= d.len()
    &&& is_permutation(perm, before.len())
    &&& forall|k: int| 0 <= k < d.len() ==> #[trigger] d[k] == before[perm[k]]
    &&& forall|k: int| i <= k < d.len() ==> #[trigger] perm[k] == k
    &&& forall|k: int| 0 <= k < i ==> #[trigger] perm[k] < i
    &&& ranked_prefix(d, i)
    &&& stable_prefix(d, perm, i)
}

/// Moving the process at `i` to `j`, past exactly those of the first `i`
/// that rank after it, extends the sorted prefix by one.
proof fn lemma_insertion_step(
    before: Seq<ProcessRowView>,
    d: Seq<ProcessRowView>,
    perm: Seq<int>,
    i: int,
    j: int,
)
    requires
        insertion_state(before, d, perm, i),
        i < d.len(),
        0 <= j <= i,
        forall|m: int| j <= m < i ==> ranks_before(d[i], #[trigger] d.remove(i)[m]),
        j == 0 || !ranks_before(d[i], d.remove(i)[j - 1]),
    ensures
        insertion_state(
            before,
            d.remove(i).insert(j, d[i]),
            perm.remove(i).insert(j, i),
            i + 1,
        ),
{
    let n = d.len();
    let x = d[i];
    let p = d.remove(i);
    let q = p.insert(j, x);
    let perm2 = perm.remove(i).insert(j, i);
    assert forall|k: int| 0 <= k < n implies 0 <= #[trigger] perm2[k] < n by {}
    let r = perm.remove(i);
    assert(perm[i] == i);
    assert forall|a: int| 0 <= a < n - 1 implies #[trigger] r[a] == perm[if a < i {
        a
    } else {
        a + 1
    }] by {}
    assert forall|k: int, l: int| 0 <= k < l < n implies perm2[k] != perm2[l] by {
        if l < j {
            assert(perm2[k] == r[k] && perm2[l] == r[l]);
        } else if l == j {
            assert(perm2[k] == r[k]);
        } else if k < j {
            assert(perm2[k] == r[k] && perm2[l] == r[l - 1]);
        } else if k == j {
            assert(perm2[l] == r[l - 1]);
        } else {
            assert(perm2[k] == r[k - 1] && perm2[l] == r[l - 1]);
        }
    }
    assert forall|k: int| 0 <= k < n implies #[trigger] q[k] == before[perm2[k]] by {
        if k < j {
        } else if k == j {
        } else if k <= i {
            assert(q[k] == d[k - 1]);
        } else {
            assert(q[k] == d[k]);
        }
    }
    assert forall|k: int| i + 1 <= k < n implies #[trigger] perm2[k] == k by {}
    assert forall|k: int| 0 <= k < i + 1 implies #[trigger] perm2[k] < i + 1 by {}
    assert forall|k: int, l: int| 0 <= k < l < i + 1 implies !ranks_before(
        #[trigger] q[l],
        #[trigger] q[k],
    ) by {
        if l < j {
            assert(q[l] == d[l] && q[k] == d[k]);
        } else if l == j {
            assert(q[k] == d[k] && q[k] == p[k]);
            assert(p[j - 1] == d[j - 1]);
            assert(!ranks_before(d[j - 1], d[k]) || k == j - 1);
            lemma_ranks_split(x, p[j - 1], p[k]);
            lemma_ranks_asymmetric(x, x);
        } else if k < j {
            assert(q[l] == p[l - 1] && q[k] == p[k]);
            assert(p[l - 1] == d[l - 1] && p[k] == d[k]);
        } else if k == j {
            assert(q[l] == p[l - 1]);
            lemma_ranks_asymmetric(x, p[l - 1]);
        } else {
            assert(q[l] == p[l - 1] && q[k] == p[k - 1]);
            assert(p[l - 1] == d[l - 1] && p[k - 1] == d[k - 1]);
        }
    }
    assert forall|k: int, l: int|
        0 <= k < l < i + 1 && same_rank(#[trigger] q[k], #[trigger] q[l]) implies perm2[k]
            < perm2[l] by {
        if l < j {
            assert(q[l] == d[l] && q[k] == d[k]);
        } else if l == j {
        } else if k < j {
            assert(q[l] == p[l - 1] && q[k] == p[k]);
            assert(p[l - 1] == d[l - 1] && p[k] == d[k]);
        } else if k == j {
            assert(q[l] == p[l - 1]);
            lemma_ranks_asymmetric(x, p[l - 1]);
        } else {
            assert(q[l] == p[l - 1] && q[k] == p[k - 1]);
            assert(p[l - 1] == d[l - 1] && p[k - 1] == d[k - 1]);
        }
    }
}

/// Whether process `a`, with lowercased name `a_key`, is listed before `b`.
fn listed_before(a: &Process, a_key: &Vec<char>, b: &Process, b_key: &Vec<char>) -> (r: bool)
    requires
        a_key@ == unicode_lowercase(a.name@),
        b_key@ == unicode_lowercase(b.name@),
    ensures
        r == ranks_before(a@, b@),
{
    if a.application != b.application {
        a.application
    } else {
        text_before(a_key, b_key)
    }
}

/// Lists applications before background processes, each group by name
/// ignoring case; processes of the same rank keep their order.
pub fn prioritise_processes(processes: &mut Vec<Process>)
    ensures
        prioritised(old(processes).deep_view(), final(processes).deep_view()),
{
    let ghost before = processes.deep_view();
    let n = processes.len();
    let mut keys: Vec<Vec<char>> = Vec::new();
    let mut m: usize = 0;
    while m < n
        invariant
            m <= n,
            n == processes@.len(),
            keys@.len() == m,
            forall|k: int|
                0 <= k < m ==> #[trigger] keys@[k]@ == unicode_lowercase(processes@[k].name@),
        decreases n - m,
    {
        let lowered = to_lowercase(processes[m].name.as_str());
        keys.push(chars_of(lowered.as_str()));
        m = m + 1;
    }
    let ghost mut perm: Seq<int> = Seq::new(n as nat, |k: int| k);
    if n == 0 {
        proof {
            assert(prioritised_by(before, processes.deep_view(), perm));
        }
        return;
    }
    let mut i: usize = 1;
    assert(insertion_state(before, processes.deep_view(), perm, 1));
    while i < n
        invariant
            1 <= i <= n,
            n == processes@.len(),
            n == keys@.len(),
            forall|k: int|
                0 <= k < n ==> #[trigger] keys@[k]@ == unicode_lowercase(processes@[k].name@),
            insertion_state(before, processes.deep_view(), perm, i as int),
        decreases n - i,
    {
        let ghost d = processes.deep_view();
        let ghost p0 = processes@;
        let x = processes.remove(i);
        let kx = keys.remove(i);
        let ghost p = processes@;
        assert(processes.deep_view() =~= d.remove(i as int));
        assert(x@ == d[i as int]);
        let mut j: usize = i;
        loop
            invariant_except_break
                j <= i,
                i < n,
                processes@ == p,
                p.len() == n - 1,
                keys@.len() == n - 1,
                forall|k: int|
                    0 <= k < n - 1 ==> #[trigger] keys@[k]@ == unicode_lowercase(p[k].name@),
                kx@ == unicode_lowercase(x.name@),
                forall|m: int| j <= m < i ==> ranks_before(x@, #[trigger] p[m]@),
            ensures
                j <= i,
                processes@ == p,
                keys@.len() == n - 1,
                forall|k: int|
                    0 <= k < n - 1 ==> #[trigger] keys@[k]@ == unicode_lowercase(p[k].name@),
                kx@ == unicode_lowercase(x.name@),
                forall|m: int| j <= m < i ==> ranks_before(x@, #[trigger] p[m]@),
                j == 0 || !ranks_before(x@, p[j - 1]@),
            decreases j,
        {
            if j == 0 {
                break;
            }
            if !listed_before(&x, &kx, &processes[j - 1], &keys[j - 1]) {
                break;
            }
            j = j - 1;
        }
        proof {
            assert forall|m: int| j <= m < i implies ranks_before(
                d[i as int],
                #[trigger] d.remove(i as int)[m],
            ) by {
                assert(d.remove(i as int)[m] == p[m]@);
            }
            if j > 0 {
                assert(d.remove(i as int)[j - 1] == p[j - 1]@);
            }
            lemma_insertion_step(before, d, perm, i as int, j as int);
        }
        processes.insert(j, x);
        keys.insert(j, kx);
        proof {
            perm = perm.remove(i as int).insert(j as int, i as int);
            assert(processes.deep_view() =~= d.remove(i as int).insert(j as int, d[i as int]));
            assert forall|k: int| 0 <= k < n implies #[trigger] keys@[k]@ == unicode_lowercase(
                processes@[k].name@,
            ) by {
                if k < j {
                } else if k == j {
                } else {
                    assert(processes@[k] == p[k - 1]);
                }
            }
        }
        i = i + 1;
    }
    proof {
        let after = processes.deep_view();
        assert(prioritised_by(before, after, perm));
    }
}

// ---------------------------------------------------------------------------
// Processes

/// How a process is listed: active, marked as an application when its PID
/// is among the open applications' PIDs, and with its icon only then.
pub open spec fn listed_process(
    p: ProcessView,
    application_pids: Seq<u32>,
    icon: Option<Seq<u8>>,
) -> ProcessRowView {
    let application = application_pids.contains(p.pid);
    ProcessRowView {
        pid: p.pid,
        name: p.name,
        active: true,
        application,
        icon_rgba: if application {
            icon
        } else {
            None
        },
    }
}

/// Whether a PID is among the given ones.
fn contains_pid(pids: &[u32], pid: u32) -> (r: bool)
    ensures
        r == pids@.contains(pid),
{
    let mut i: usize = 0;
    while i < pids.len()
        invariant
            i <= pids@.len(),
            forall|k: int| 0 <= k < i ==> pids@[k] != pid,
        decreases pids@.len() - i,
    {
        if pids[i] == pid {
            assert(pids@[i as int] == pid);
            return true;
        }
        i = i + 1;
    }
    false
}

/// The processes as listed: each converted with the icon found for its
/// executable (`icons` is aligned with `processes`), applications first.
pub fn to_ui_processes(
    processes: &[ProcessInfo],
    application_pids: &[u32],
    icons: Vec<Option<Vec<u8>>>,
) -> (r: Vec<Process>)
    requires
        icons@.len() == processes@.len(),
    ensures
        prioritised(
            Seq::new(
                processes@.len(),
                |k: int| listed_process(processes@[k]@, application_pids@, icons@[k].deep_view()),
            ),
            r.deep_view(),
        ),
{
    let ghost converted = Seq::new(
        processes@.len(),
        |k: int| listed_process(processes@[k]@, application_pids@, icons@[k].deep_view()),
    );
    let ghost icons0 = icons@;
    let mut icons = icons;
    let mut out: Vec<Process> = Vec::new();
    let mut i: usize = 0;
    while i < processes.len()
        invariant
            i <= processes@.len(),
            icons@.len() == processes@.len(),
            forall|k: int| i <= k < icons@.len() ==> #[trigger] icons@[k] == icons0[k],
            converted == Seq::new(
                processes@.len(),
                |k: int| listed_process(processes@[k]@, application_pids@, icons0[k].deep_view()),
            ),
            out@.len() == i,
            forall|k: int| 0 <= k < i ==> (#[trigger] out@[k])@ == converted[k],
        decreases processes@.len() - i,
    {
        let process = &processes[i];
        let application = contains_pid(application_pids, process.pid);
        let icon = icons.remove(i);
        icons.insert(i, None);
        let icon_rgba = if application {
            icon
        } else {
            None
        };
        out.push(
            Process { pid: process.pid, name: process.name.clone(), active: true, application, icon_rgba },
        );
        i = i + 1;
    }
    assert(out.deep_view() =~= converted);
    prioritise_processes(&mut out);
    out
}

// ---------------------------------------------------------------------------
// Rows

/// The kind of row a connection of the given protocol is shown as.
pub open spec fn protocol_kind(p: NetworkProtocol) -> EventKind {
    match p {
        NetworkProtocol::HTTP => EventKind::Http,
        NetworkProtocol::HTTPS => EventKind::Https,
        NetworkProtocol::TLS => EventKind::Tls,
        NetworkProtocol::TCP => EventKind::Tcp,
        NetworkProtocol::UDP => EventKind::Udp,
        NetworkProtocol::QUIC => EventKind::Quic,
        NetworkProtocol::UNKNOWN => EventKind::Unknown,
    }
}

/// The kind of row a connection of the given protocol is shown as.
pub fn kind_of_protocol(p: NetworkProtocol) -> (r: EventKind)
    ensures
        r == protocol_kind(p),
{
    match p {
        NetworkProtocol::HTTP => EventKind::Http,
        NetworkProtocol::HTTPS => EventKind::Https,
        NetworkProtocol::TLS => EventKind::Tls,
        NetworkProtocol::TCP => EventKind::Tcp,
        NetworkProtocol::UDP => EventKind::Udp,
        NetworkProtocol::QUIC => EventKind::Quic,
        NetworkProtocol::UNKNOWN => EventKind::Unknown,
    }
}

/// The method column of a connection row: the first word of its kind's
/// label, or `Unknown` when the label has none.
pub open spec fn kind_method(kind: EventKind) -> Seq<char> {
    let w = words(kind_label(kind));
    if w.len() > 0 {
        w[0]
    } else {
        "Unknown"@
    }
}

/// The process column: the process's name, or `Unknown process`.
pub open spec fn process_column(p: Option<ProcessView>) -> Seq<char> {
    match p {
        Some(p) => p.name,
        None => "Unknown process"@,
    }
}

/// The PID of a known process.
pub open spec fn process_pid(p: Option<ProcessView>) -> Option<u32> {
    match p {
        Some(p) => Some(p.pid),
        None => None,
    }
}

/// The row showing a connection that has carried `packet_count` packets.
pub open spec fn connection_row(c: ConnectionView, packet_count: u64) -> RowView {
    let kind = protocol_kind(c.protocol);
    RowView {
        id: c.id,
        pid: process_pid(c.process),
        process: process_column(c.process),
        method: kind_method(kind),
        host: match c.hostname {
            Some(h) => h,
            None => ip_text(c.remote_ip),
        },
        path: Seq::empty(),
        status: None,
        kind,
        bytes_sent: c.bytes_sent,
        bytes_received: c.bytes_received,
        packet_count,
        duration_ms: None,
        local: socket_text(c.local_ip, c.local_port),
        remote: socket_text(c.remote_ip, c.remote_port),
        request_headers: Seq::empty(),
        response_headers: Seq::empty(),
        request_body: None,
        response_body: None,
        ja4: None,
        ja4_outlier: false,
    }
}

/// The process column and PID of an optional process.
fn process_columns(p: &Option<ProcessInfo>) -> (r: (Option<u32>, String))
    ensures
        r.0 == process_pid(p.deep_view()),
        r.1@ == process_column(p.deep_view()),
{
    match p {
        Some(p) => (Some(p.pid), p.name.clone()),
        None => (None, String::from_str("Unknown process")),
    }
}

/// The row showing a connection that has carried `packet_count` packets.
/// No HTTP data is filled in: no path, status, headers or bodies.
pub fn to_ui_connection(connection: &NetworkConnection, packet_count: u64) -> (r: NetworkEvent)
    ensures
        r@ == connection_row(connection@, packet_count),
{
    let kind = kind_of_protocol(connection.protocol);
    let (pid, process) = process_columns(&connection.process);
    let label = chars_of(kind.label());
    let parts = split_words(&label);
    let method = if parts.len() > 0 {
        string_from_chars(&parts[0])
    } else {
        String::from_str("Unknown")
    };
    let host = match &connection.hostname {
        Some(h) => h.clone(),
        None => ip_string(connection.remote_ip),
    };
    let r = NetworkEvent {
        id: connection.id,
        pid,
        process,
        method,
        host,
        path: String::new(),
        status: None,
        kind,
        bytes_sent: connection.bytes_sent,
        bytes_received: connection.bytes_received,
        packet_count,
        duration_ms: None,
        local: socket_string(connection.local_ip, connection.local_port),
        remote: connection.remote_address(),
        request_headers: Vec::new(),
        response_headers: Vec::new(),
        request_body: None,
        response_body: None,
        ja4: None,
        ja4_outlier: false,
    };
    assert(r.request_headers.deep_view() =~= Seq::<crate::model::HeaderView>::empty());
    assert(r.response_headers.deep_view() =~= Seq::<crate::model::HeaderView>::empty());
    r
}

/// The bit that sets the ids of proxied requests apart from connection ids.
pub const HTTP_ROW_ID_BIT: u64 = 0x8000_0000_0000_0000;

/// A duration in milliseconds as a row shows it: absent when it does not
/// fit in 64 bits.
pub open spec fn row_duration(d: Option<u128>) -> Option<u64> {
    match d {
        Some(v) => if v <= u64::MAX {
            Some(v as u64)
        } else {
            None
        },
        None => None,
    }
}

/// The row showing a proxied request seen between `local` and `remote`.
pub open spec fn http_row(q: RequestView, local: SocketAddress, remote: SocketAddress) -> RowView {
    RowView {
        id: q.id | HTTP_ROW_ID_BIT,
        pid: process_pid(q.process),
        process: process_column(q.process),
        method: q.method,
        host: q.host,
        path: q.path,
        status: q.status_code,
        kind: if equal_ignoring_ascii_case(q.scheme, "https"@) {
            EventKind::Https
        } else {
            EventKind::Http
        },
        bytes_sent: q.request_body_size as u64,
        bytes_received: match q.response_body_size {
            Some(n) => n as u64,
            None => 0,
        },
        packet_count: 0,
        duration_ms: row_duration(q.duration_ms),
        local: socket_text(local.ip, local.port),
        remote: socket_text(remote.ip, remote.port),
        request_headers: q.request_headers,
        response_headers: q.response_headers,
        request_body: q.request_body,
        response_body: q.response_body,
        ja4: q.ja4,
        ja4_outlier: false,
    }
}

/// The row showing a proxied request seen between `local` and `remote`,
/// with everything the proxy observed of it.
pub fn to_ui_http(request: &HttpRequestInfo, local: SocketAddress, remote: SocketAddress) -> (r:
    NetworkEvent)
    ensures
        r@ == http_row(request@, local, remote),
{
    let (pid, process) = process_columns(&request.process);
    let https = str_eq_ignore_ascii_case(request.scheme.as_str(), "https");
    let duration_ms = match request.duration_ms {
        Some(v) => if v <= u64::MAX as u128 {
            Some(v as u64)
        } else {
            None
        },
        None => None,
    };
    NetworkEvent {
        id: request.id | HTTP_ROW_ID_BIT,
        pid,
        process,
        method: request.method.clone(),
        host: request.host.clone(),
        path: request.path.clone(),
        status: request.status_code,
        kind: if https {
            EventKind::Https
        } else {
            EventKind::Http
        },
        bytes_sent: request.request_body_size as u64,
        bytes_received: match request.response_body_size {
            Some(n) => n as u64,
            None => 0,
        },
        packet_count: 0,
        duration_ms,
        local: socket_string(local.ip, local.port),
        remote: socket_string(remote.ip, remote.port),
        request_headers: clone_headers(&request.request_headers),
        response_headers: clone_headers(&request.response_headers),
        request_body: clone_bytes(&request.request_body),
        response_body: clone_bytes(&request.response_body),
        ja4: clone_text(&request.ja4),
        ja4_outlier: false,
    }
}

// ---------------------------------------------------------------------------
// Captured traffic

/// What the runtime reports to the view.
pub enum RuntimeEvent {
    Connection(NetworkEvent),
    Closed(u64),
    Processes(Vec<Process>),
    Warning(String),
    Error(String),
}

/// The packet count after one more packet, saturating.
pub open spec fn next_count(counts: Map<u64, u64>, id: u64) -> u64 {
    let before: u64 = if counts.contains_key(id) {
        counts[id]
    } else {
        0
    };
    if before == u64::MAX {
        u64::MAX
    } else {
        (before + 1) as u64
    }
}

/// Handles one event of the connection tracker seen at `now`: an opened or
/// updated connection counts one more packet, is remembered for
/// correlation and is shown with its count; a closed one loses its count
/// and is reported closed; a captured packet changes nothing.
pub fn handle_network_event_at(
    event: CoreEvent,
    correlator: &mut TrafficCorrelator,
    packet_counts: &mut HashMap<u64, u64>,
    now: i128,
) -> (r: Option<RuntimeEvent>)
    ensures
        final(correlator).window() == old(correlator).window(),
        match event@ {
            EventView::PacketCaptured(_) => {
                &&& r is None
                &&& final(correlator).entries() == old(correlator).entries()
                &&& final(packet_counts)@ == old(packet_counts)@
            },
            EventView::ConnectionOpened(c) | EventView::ConnectionUpdated(c) => {
                let count = next_count(old(packet_counts)@, c.id);
                &&& final(packet_counts)@ == old(packet_counts)@.insert(c.id, count)
                &&& final(correlator).entries() == observed_entries(
                    old(correlator).entries(),
                    c,
                    now,
                )
                &&& r matches Some(RuntimeEvent::Connection(row))
                &&& row@ == connection_row(c, count)
            },
            EventView::ConnectionClosed(id) => {
                &&& final(packet_counts)@ == old(packet_counts)@.remove(id)
                &&& final(correlator).entries() == old(correlator).entries()
                &&& r matches Some(RuntimeEvent::Closed(closed))
                &&& closed == id
            },
        },
{
    match event {
        CoreEvent::PacketCaptured(_) => None,
        CoreEvent::ConnectionOpened(connection) | CoreEvent::ConnectionUpdated(connection) => {
            let before: u64 = match packet_counts.get(&connection.id) {
                Some(n) => *n,
                None => 0,
            };
            let count = before.saturating_add(1);
            packet_counts.insert(connection.id, count);
            let row = to_ui_connection(&connection, count);
            correlator.observe_connection(connection, now);
            Some(RuntimeEvent::Connection(row))
        },
        CoreEvent::ConnectionClosed(id) => {
            packet_counts.remove(&id);
            Some(RuntimeEvent::Closed(id))
        },
    }
}

/// Handles one event of the connection tracker at the current time, as
/// [`handle_network_event_at`] does at whatever time the clock gave.
pub fn handle_network_event(
    event: CoreEvent,
    correlator: &mut TrafficCorrelator,
    packet_counts: &mut HashMap<u64, u64>,
) -> (r: Option<RuntimeEvent>)
    ensures
        final(correlator).window() == old(correlator).window(),
        match event@ {
            EventView::PacketCaptured(_) => {
                &&& r is None
                &&& final(correlator).entries() == old(correlator).entries()
                &&& final(packet_counts)@ == old(packet_counts)@
            },
            EventView::ConnectionOpened(c) => {
                let count = next_count(old(packet_counts)@, c.id);
                &&& final(packet_counts)@ == old(packet_counts)@.insert(c.id, count)
                &&& exists|now: i128|
                    final(correlator).entries() == observed_entries(
                        old(correlator).entries(),
                        c,
                        now,
                    )
                &&& r matches Some(RuntimeEvent::Connection(row))
                &&& row@ == connection_row(c, count)
            },
            EventView::ConnectionUpdated(c) => {
                let count = next_count(old(packet_counts)@, c.id);
                &&& final(packet_counts)@ == old(packet_counts)@.insert(c.id, count)
                &&& exists|now: i128|
                    final(correlator).entries() == observed_entries(
                        old(correlator).entries(),
                        c,
                        now,
                    )
                &&& r matches Some(RuntimeEvent::Connection(row))
                &&& row@ == connection_row(c, count)
            },
            EventView::ConnectionClosed(id) => {
                &&& final(packet_counts)@ == old(packet_counts)@.remove(id)
                &&& final(correlator).entries() == old(correlator).entries()
                &&& r matches Some(RuntimeEvent::Closed(closed))
                &&& closed == id
            },
        },
{
    let now = current_time();
    let ghost before = correlator.entries();
    let ghost seen = event@;
    let r = handle_network_event_at(event, correlator, packet_counts, now);
    proof {
        match seen {
            EventView::ConnectionOpened(c) => {
                assert(correlator.entries() == observed_entries(before, c, now));
            },
            EventView::ConnectionUpdated(c) => {
                assert(correlator.entries() == observed_entries(before, c, now));
            },
            _ => {},
        }
    }
    r
}

/// The local and remote endpoints of a packet, by its direction; none when
/// a port is missing.
pub open spec fn packet_endpoint_pair(
    direction: ConnectionDirection,
    source_ip: IpAddress,
    source_port: Option<u16>,
    destination_ip: IpAddress,
    destination_port: Option<u16>,
) -> Option<(SocketAddress, SocketAddress)> {
    match (source_port, destination_port) {
        (Some(sp), Some(dp)) => {
            let source = SocketAddress { ip: source_ip, port: sp };
            let destination = SocketAddress { ip: destination_ip, port: dp };
            match direction {
                ConnectionDirection::Outbound => Some((source, destination)),
                ConnectionDirection::Inbound => Some((destination, source)),
            }
        },
        _ => None,
    }
}

/// The local and remote endpoints of a packet, by its direction; none when
/// a port is missing.
pub fn packet_endpoints(packet: &CapturedPacket) -> (r: Option<(SocketAddress, SocketAddress)>)
    ensures
        r == packet_endpoint_pair(
            packet.direction,
            packet.source_ip,
            packet.source_port,
            packet.destination_ip,
            packet.destination_port,
        ),
{
    let source_port = match packet.source_port {
        Some(p) => p,
        None => return None,
    };
    let destination_port = match packet.destination_port {
        Some(p) => p,
        None => return None,
    };
    let source = SocketAddress { ip: packet.source_ip, port: source_port };
    let destination = SocketAddress { ip: packet.destination_ip, port: destination_port };
    match packet.direction {
        ConnectionDirection::Outbound => Some((source, destination)),
        ConnectionDirection::Inbound => Some((destination, source)),
    }
}

/// The connection looked up in the system's socket tables to find the
/// process owning the local endpoint: outbound, id 0, nothing counted.
pub open spec fn socket_query_view(
    local: SocketAddress,
    remote: SocketAddress,
    protocol: NetworkProtocol,
) -> ConnectionView {
    ConnectionView {
        id: 0,
        process: None,
        protocol,
        ip_version: match local.ip {
            IpAddress::V4(_) => IpVersion::V4,
            IpAddress::V6(_) => IpVersion::V6,
        },
        direction: ConnectionDirection::Outbound,
        local_ip: local.ip,
        local_port: local.port,
        remote_ip: remote.ip,
        remote_port: remote.port,
        hostname: None,
        bytes_sent: 0,
        bytes_received: 0,
    }
}

/// The connection looked up in the system's socket tables to find the
/// process owning the local endpoint.
pub fn socket_query(local: SocketAddress, remote: SocketAddress, protocol: NetworkProtocol) -> (r:
    NetworkConnection)
    ensures
        r@ == socket_query_view(local, remote, protocol),
{
    NetworkConnection {
        id: 0,
        process: None,
        protocol,
        ip_version: match local.ip {
            IpAddress::V4(_) => IpVersion::V4,
            IpAddress::V6(_) => IpVersion::V6,
        },
        direction: ConnectionDirection::Outbound,
        local_ip: local.ip,
        local_port: local.port,
        remote_ip: remote.ip,
        remote_port: remote.port,
        hostname: None,
        bytes_sent: 0,
        bytes_received: 0,
    }
}

/// The first listed process with the given PID.
pub open spec fn first_process(processes: Seq<ProcessInfo>, pid: u32) -> Option<ProcessView> {
    if exists|i: int| 0 <= i < processes.len() && processes[i].pid == pid {
        let i = choose|i: int|
            0 <= i < processes.len() && processes[i].pid == pid && forall|j: int|
                0 <= j < i ==> processes[j].pid != pid;
        Some(processes[i]@)
    } else {
        None
    }
}

/// A copy of the first listed process with the given PID.
pub fn find_process(processes: &[ProcessInfo], pid: u32) -> (r: Option<ProcessInfo>)
    ensures
        r.deep_view() == first_process(processes@, pid),
{
    let ghost list = processes@;
    let mut i: usize = 0;
    while i < processes.len()
        invariant
            i <= list.len(),
            list == processes@,
            forall|j: int| 0 <= j < i ==> list[j].pid != pid,
        decreases list.len() - i,
    {
        if processes[i].pid == pid {
            proof {
                assert(0 <= i < list.len() && list[i as int].pid == pid && forall|j: int|
                    0 <= j < i ==> list[j].pid != pid);
                let w = choose|w: int|
                    0 <= w < list.len() && list[w].pid == pid && forall|j: int|
                        0 <= j < w ==> list[j].pid != pid;
                if w < i {
                    assert(list[w].pid != pid);
                } else if w > i {
                    assert(list[i as int].pid != pid);
                }
                assert(w == i);
            }
            return Some(processes[i].clone());
        }
        i = i + 1;
    }
    None
}

// ---------------------------------------------------------------------------
// Certificate trust

/// The arguments given to `certutil` to trust the certificate at `path`:
/// the current user's root store only.
pub open spec fn install_arguments(path: Seq<char>) -> Seq<Seq<char>> {
    seq!["-user"@, "-f"@, "-addstore"@, "Root"@, path]
}

/// The arguments given to `certutil` to trust the certificate at `path`.
pub fn certificate_install_arguments(path: &str) -> (r: Vec<String>)
    ensures
        r.deep_view() == install_arguments(path@),
{
    let mut r: Vec<String> = Vec::new();
    r.push(String::from_str("-user"));
    r.push(String::from_str("-f"));
    r.push(String::from_str("-addstore"));
    r.push(String::from_str("Root"));
    r.push(path.to_string());
    assert(r.deep_view() =~= install_arguments(path@));
    r
}

/// The message shown when the certificate installer fails: its error
/// output, trimmed, or its standard output when the error output is blank.
pub open spec fn trust_failure_text(stderr: Seq<char>, stdout: Seq<char>) -> Seq<char> {
    "Windows could not trust the AppWatch HTTPS certificate: "@ + if trimmed(stderr).len() == 0 {
        trimmed(stdout)
    } else {
        trimmed(stderr)
    }
}

/// The message shown when the certificate installer fails.
pub fn trust_failure_message(stderr: &str, stdout: &str) -> (r: String)
    ensures
        r@ == trust_failure_text(stderr@, stdout@),
{
    let err = trim_chars(&chars_of(stderr));
    let detail = if err.len() == 0 {
        trim_chars(&chars_of(stdout))
    } else {
        err
    };
    let mut out = chars_of("Windows could not trust the AppWatch HTTPS certificate: ");
    extend_with(&mut out, &detail);
    string_from_chars(&out)
}

// ---------------------------------------------------------------------------
// Messages

/// The URL applications are given to reach the proxy.
pub open spec fn proxy_url_text(address: SocketAddress) -> Seq<char> {
    "http://"@ + socket_text(address.ip, address.port)
}

/// The URL applications are given to reach the proxy.
pub fn proxy_url(address: SocketAddress) -> (r: String)
    ensures
        r@ == proxy_url_text(address),
{
    let mut out = chars_of("http://");
    push_socket_text(&mut out, address.ip, address.port);
    string_from_chars(&out)
}

/// The notice shown once the proxy listens.
pub fn proxy_listening_message(address: SocketAddress, certificate_path: &str) -> (r: String)
    ensures
        r@ == "HTTP/HTTPS proxy listening on "@ + socket_text(address.ip, address.port)
            + ". Configure an application to use this address and trust "@ + certificate_path@
            + " to inspect HTTPS requests. HTTP/3/QUIC is not intercepted."@,
{
    let mut out = chars_of("HTTP/HTTPS proxy listening on ");
    push_socket_text(&mut out, address.ip, address.port);
    extend_chars(&mut out, ". Configure an application to use this address and trust ");
    extend_chars(&mut out, certificate_path);
    extend_chars(&mut out, " to inspect HTTPS requests. HTTP/3/QUIC is not intercepted.");
    string_from_chars(&out)
}

/// The notice shown after one process was relaunched through the proxy.
pub fn relaunched_pid_message(pid: u32, proxy_url: &str) -> (r: String)
    ensures
        r@ == "Relaunched PID "@ + decimal_text(pid as nat) + " through "@ + proxy_url@ + "."@,
{
    let mut out = chars_of("Relaunched PID ");
    push_decimal(&mut out, pid as u64);
    extend_chars(&mut out, " through ");
    extend_chars(&mut out, proxy_url);
    extend_chars(&mut out, ".");
    string_from_chars(&out)
}

/// The notice shown after the open applications were relaunched.
pub fn relaunch_summary_message(summary: RelaunchSummary) -> (r: String)
    ensures
        r@ == "Relaunched "@ + decimal_text(summary.relaunched as nat)
            + " open app(s) through the proxy; "@ + decimal_text(summary.failed as nat)
            + " could not be relaunched."@,
{
    let mut out = chars_of("Relaunched ");
    push_decimal(&mut out, summary.relaunched as u64);
    extend_chars(&mut out, " open app(s) through the proxy; ");
    push_decimal(&mut out, summary.failed as u64);
    extend_chars(&mut out, " could not be relaunched.");
    string_from_chars(&out)
}

/// The error shown when relaunching failed.
pub fn relaunch_failure_message(error: &str) -> (r: String)
    ensures
        r@ == "Proxy relaunch failed: "@ + error@,
{
    let mut out = chars_of("Proxy relaunch failed: ");
    extend_chars(&mut out, error);
    string_from_chars(&out)
}

} // verus!
