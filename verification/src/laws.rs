//! Properties of the library as a whole, over the specifications that the
//! operations' contracts use.

use vstd::prelude::*;

use crate::address::SocketAddress;
use crate::capture::{
    expiry_events, opens_connection, ConnectionTracker, is_closing, is_expired, key_of, key_position, retained, track_packet, ConnectionKey,
    TrackedView, CONNECTION_INACTIVITY_TIMEOUT,
};
use crate::correlation::{
    correlated_request, correlation_target, is_candidate, observed_entries, ObservedView,
};
use crate::model::{
    redacted_header, ConnectionDirection, ConnectionView, EventView, HeaderView, NetworkProtocol,
    PacketView, RequestView,
};
use crate::capture::{captured_view, layers_accepted, NetworkLayer, PacketLayers, TransportLayer, be_u32, be_u128};
use crate::address::IpAddress;
use crate::model::is_sensitive_header;
use crate::text::{equal_ignoring_ascii_case, is_space, lemma_skip_space, skip_space, unicode_lowercase, words};
use crate::ui::application::{term_matches, term_problem};
use crate::ui::domain::{kind_label, search_text_of};
use crate::text::{decimal_text, first_index_of, has_infix, parse_u16_text};
use crate::ui::application::{
    filter_accepts, filter_problem, first_with_id, row_visible, rows_without, visible_rows,
};
use crate::ui::domain::{NetworkEvent, ProcessRowView, RowView};
use crate::ui::runtime::{connection_row, http_row, prioritised, ranks_before, HTTP_ROW_ID_BIT};

verus! {

// ---------------------------------------------------------------------------
// Packets and connections

/// Whether `reply` answers `request`: it comes back inbound with the
/// endpoints swapped and the same protocol.
pub open spec fn is_reply(request: PacketView, reply: PacketView) -> bool {
    &&& request.direction == ConnectionDirection::Outbound
    &&& reply.direction == ConnectionDirection::Inbound
    &&& reply.protocol == request.protocol
    &&& reply.source_ip == request.destination_ip
    &&& reply.source_port == request.destination_port
    &&& reply.destination_ip == request.source_ip
    &&& reply.destination_port == request.source_port
}

/// A reply belongs to the same connection as the packet it answers.
pub proof fn law_reply_has_request_key(request: PacketView, reply: PacketView)
    requires
        is_reply(request, reply),
    ensures
        key_of(reply) == key_of(request),
{
}

/// No two tracked connections share a key.
pub open spec fn keys_unique(s: Seq<TrackedView>) -> bool {
    forall|i: int, j: int| 0 <= i < s.len() && 0 <= j < s.len() && i != j ==> s[i].key != s[j].key
}

proof fn lemma_retained_from(s: Seq<TrackedView>, now: i128)
    ensures
        forall|i: int|
            0 <= i < retained(s, now).len() ==> exists|j: int|
                0 <= j < s.len() && s[j] == #[trigger] retained(s, now)[i],
        retained(s, now).len() <= s.len(),
    decreases s.len(),
{
    if s.len() > 0 {
        let init = s.drop_last();
        lemma_retained_from(init, now);
        assert forall|i: int| 0 <= i < retained(s, now).len() implies exists|j: int|
            0 <= j < s.len() && s[j] == #[trigger] retained(s, now)[i] by {
            if i < retained(init, now).len() {
                let j = choose|j: int| 0 <= j < init.len() && init[j] == retained(init, now)[i];
                assert(s[j] == init[j]);
            } else {
                assert(s[s.len() - 1] == retained(s, now)[i]);
            }
        }
    }
}

proof fn lemma_retained_unique(s: Seq<TrackedView>, now: i128)
    requires
        keys_unique(s),
    ensures
        keys_unique(retained(s, now)),
    decreases s.len(),
{
    if s.len() > 0 {
        let init = s.drop_last();
        assert(keys_unique(init)) by {
            assert forall|i: int, j: int|
                0 <= i < init.len() && 0 <= j < init.len() && i != j implies init[i].key
                != init[j].key by {
                assert(init[i] == s[i] && init[j] == s[j]);
            }
        }
        lemma_retained_unique(init, now);
        lemma_retained_from(init, now);
        if !is_expired(s.last(), now) {
            let r = retained(init, now);
            assert forall|i: int, j: int|
                0 <= i < r.len() + 1 && 0 <= j < r.len() + 1 && i != j implies r.push(
                s.last(),
            )[i].key != r.push(s.last())[j].key by {
                if i == r.len() {
                    let m = choose|m: int| 0 <= m < init.len() && init[m] == r[j];
                    assert(s[m] == init[m]);
                } else if j == r.len() {
                    let m = choose|m: int| 0 <= m < init.len() && init[m] == r[i];
                    assert(s[m] == init[m]);
                }
            }
        }
    }
}

/// Closing idle connections leaves none that has been idle for the whole
/// timeout.
pub proof fn law_retained_are_live(s: Seq<TrackedView>, now: i128)
    ensures
        forall|i: int| 0 <= i < retained(s, now).len() ==> !is_expired(#[trigger] retained(s, now)[i], now),
    decreases s.len(),
{
    if s.len() > 0 {
        let init = s.drop_last();
        law_retained_are_live(init, now);
        assert forall|i: int| 0 <= i < retained(s, now).len() implies !is_expired(
            #[trigger] retained(s, now)[i],
            now,
        ) by {
            if i < retained(init, now).len() {
                assert(retained(s, now)[i] == retained(init, now)[i]);
            }
        }
    }
}

/// A TCP packet with FIN or RST leaves no tracked connection with its key.
pub proof fn law_closing_packet_removes_connection(
    entries: Seq<TrackedView>,
    next_id: u64,
    p: PacketView,
)
    requires
        keys_unique(entries),
        p.protocol == NetworkProtocol::TCP,
        p.tcp_fin || p.tcp_rst,
        key_of(p) is Some,
    ensures
        forall|i: int|
            0 <= i < track_packet(entries, next_id, p).0.len() ==> (#[trigger] track_packet(
                entries,
                next_id,
                p,
            ).0[i]).key != key_of(p)->0,
{
    let k = key_of(p)->0;
    let live = retained(entries, p.timestamp);
    lemma_retained_unique(entries, p.timestamp);
    let result = track_packet(entries, next_id, p).0;
    match key_position(live, k) {
        Some(i) => {
            let upd = live.update(
                i,
                TrackedView {
                    connection: crate::capture::counted(live[i].connection, p),
                    last_seen: p.timestamp,
                    ..live[i]
                },
            );
            assert(keys_unique(upd)) by {
                assert forall|a: int, b: int|
                    0 <= a < upd.len() && 0 <= b < upd.len() && a != b implies upd[a].key
                    != upd[b].key by {
                    assert(upd[a].key == live[a].key && upd[b].key == live[b].key);
                }
            }
            assert(upd[i].key == k);
            let j = key_position(upd, k)->0;
            assert(upd[j].key == k);
            assert(j == i);
            assert forall|m: int| 0 <= m < result.len() implies (#[trigger] result[m]).key != k by {
                if m < i {
                    assert(result[m] == upd[m]);
                } else {
                    assert(result[m] == upd[m + 1]);
                }
            }
        },
        None => {
            let opened = crate::capture::opened(next_id, p, k);
            let pushed = live.push(
                TrackedView { key: k, connection: opened, started_at: p.timestamp, last_seen: p.timestamp },
            );
            assert forall|m: int| 0 <= m < live.len() implies live[m].key != k by {}
            assert(pushed[live.len() as int].key == k);
            let j = key_position(pushed, k)->0;
            assert(j == live.len());
            assert forall|m: int| 0 <= m < result.len() implies (#[trigger] result[m]).key != k by {
                assert(result[m] == pushed[m]);
            }
        },
    }
}

/// A packet to a new endpoint pair opens a connection with the next id, and
/// its reply within the inactivity timeout updates that same connection,
/// which then counts the request's size as sent and the reply's as received.
pub proof fn law_reply_updates_request_connection(
    entries: Seq<TrackedView>,
    next_id: u64,
    request: PacketView,
    reply: PacketView,
)
    requires
        keys_unique(entries),
        is_reply(request, reply),
        key_of(request) is Some,
        key_position(retained(entries, request.timestamp), key_of(request)->0) is None,
        !is_closing(request),
        !is_closing(reply),
        request.timestamp <= reply.timestamp,
        reply.timestamp - request.timestamp < CONNECTION_INACTIVITY_TIMEOUT,
    ensures
        ({
            let (e1, n1, ev1) = track_packet(entries, next_id, request);
            let (e2, n2, ev2) = track_packet(e1, n1, reply);
            &&& ev1.last() matches EventView::ConnectionOpened(c) && c.id == next_id
            &&& n2 == n1
            &&& ev2.last() matches EventView::ConnectionUpdated(c) && {
                &&& c.id == next_id
                &&& c.bytes_sent == request.packet_size as u64
                &&& c.bytes_received == reply.packet_size as u64
            }
        }),
{
    let k = key_of(request)->0;
    let live = retained(entries, request.timestamp);
    let c = crate::capture::opened(next_id, request, k);
    let x = TrackedView { key: k, connection: c, started_at: request.timestamp, last_seen: request.timestamp };
    let e1 = live.push(x);
    assert(track_packet(entries, next_id, request).0 == e1);
    law_reply_has_request_key(request, reply);
    assert(!is_expired(x, reply.timestamp));
    let live2 = retained(e1, reply.timestamp);
    assert(e1.drop_last() =~= live);
    assert(live2 == retained(live, reply.timestamp).push(x));
    lemma_retained_from(live, reply.timestamp);
    let r = retained(live, reply.timestamp);
    assert forall|m: int| 0 <= m < r.len() implies r[m].key != k by {
        let j = choose|j: int| 0 <= j < live.len() && live[j] == r[m];
        if live[j].key == k {
            assert(exists|i: int| 0 <= i < live.len() && live[i].key == k);
        }
    }
    assert(live2[r.len() as int] == x);
    let i = key_position(live2, k)->0;
    assert(live2[i].key == k);
    assert(i == r.len());
}

/// The ids of the connections opened in a run of events, in order.
pub open spec fn opened_ids(events: Seq<EventView>) -> Seq<u64>
    decreases events.len(),
{
    if events.len() == 0 {
        Seq::empty()
    } else {
        match events.last() {
            EventView::ConnectionOpened(c) => opened_ids(events.drop_last()).push(c.id),
            _ => opened_ids(events.drop_last()),
        }
    }
}

/// What a tracker does with packets handed to it one after another: its
/// connections, next id and all the events it reported, in order.
pub open spec fn track_packets(entries: Seq<TrackedView>, next_id: u64, packets: Seq<PacketView>) -> (
    Seq<TrackedView>,
    u64,
    Seq<EventView>,
)
    decreases packets.len(),
{
    if packets.len() == 0 {
        (entries, next_id, Seq::empty())
    } else {
        let (e, n, ev) = track_packets(entries, next_id, packets.drop_last());
        let (e2, n2, ev2) = track_packet(e, n, packets.last());
        (e2, n2, ev + ev2)
    }
}

proof fn lemma_opened_ids_concat(a: Seq<EventView>, b: Seq<EventView>)
    ensures
        opened_ids(a + b) == opened_ids(a) + opened_ids(b),
    decreases b.len(),
{
    if b.len() == 0 {
        assert(a + b =~= a);
        assert(opened_ids(b) =~= Seq::<u64>::empty());
        assert(opened_ids(a) + opened_ids(b) =~= opened_ids(a));
    } else {
        lemma_opened_ids_concat(a, b.drop_last());
        assert((a + b).drop_last() =~= a + b.drop_last());
        assert((a + b).last() == b.last());
        match b.last() {
            EventView::ConnectionOpened(c) => {
                assert(opened_ids(a) + opened_ids(b.drop_last()).push(c.id) =~= (opened_ids(a)
                    + opened_ids(b.drop_last())).push(c.id));
            },
            _ => {},
        }
    }
}

proof fn lemma_no_opened_on_expiry(s: Seq<TrackedView>, now: i128)
    ensures
        opened_ids(expiry_events(s, now)) == Seq::<u64>::empty(),
    decreases s.len(),
{
    let ex = expiry_events(s, now);
    if s.len() > 0 {
        let init = s.drop_last();
        lemma_no_opened_on_expiry(init, now);
        if is_expired(s.last(), now) {
            assert(ex.drop_last() =~= expiry_events(init, now));
        } else {
            assert(ex =~= expiry_events(init, now));
        }
    }
    assert(opened_ids(ex) =~= Seq::<u64>::empty());
}

/// One packet opens at most one connection, which gets the next id; the
/// next id moves on by one exactly then.
proof fn lemma_track_packet_ids(entries: Seq<TrackedView>, next_id: u64, p: PacketView)
    requires
        next_id < u64::MAX,
    ensures
        ({
            let (e, n, ev) = track_packet(entries, next_id, p);
            &&& !opens_connection(entries, p) ==> n == next_id && opened_ids(ev) == Seq::<
                u64,
            >::empty()
            &&& opens_connection(entries, p) ==> {
                &&& n == next_id + 1
                &&& opened_ids(ev) == seq![next_id]
                &&& ev.contains(
                    EventView::ConnectionOpened(
                        crate::capture::opened(next_id, p, key_of(p)->0),
                    ),
                )
            }
        }),
{
    let live = retained(entries, p.timestamp);
    let reported = seq![EventView::PacketCaptured(p)] + expiry_events(entries, p.timestamp);
    lemma_no_opened_on_expiry(entries, p.timestamp);
    lemma_opened_ids_concat(seq![EventView::PacketCaptured(p)], expiry_events(entries, p.timestamp));
    assert(opened_ids(seq![EventView::PacketCaptured(p)]) =~= Seq::<u64>::empty()) by {
        let one = seq![EventView::PacketCaptured(p)];
        assert(one.drop_last() =~= Seq::<EventView>::empty());
        assert(one.last() == EventView::PacketCaptured(p));
        assert(opened_ids(Seq::<EventView>::empty()) =~= Seq::<u64>::empty());
    }
    assert(opened_ids(seq![EventView::PacketCaptured(p)]) + opened_ids(
        expiry_events(entries, p.timestamp),
    ) =~= Seq::<u64>::empty());
    assert(opened_ids(reported) =~= Seq::<u64>::empty());
    match key_of(p) {
        None => {
            assert(track_packet(entries, next_id, p).2 == reported);
        },
        Some(k) => {
            match key_position(live, k) {
                Some(i) => {
                    let c = crate::capture::counted(live[i].connection, p);
                    let with_event = reported.push(EventView::ConnectionUpdated(c));
                    assert(with_event.drop_last() =~= reported);
                    assert(opened_ids(with_event) =~= Seq::<u64>::empty());
                    if is_closing(p) {
                        let closed = with_event.push(EventView::ConnectionClosed(c.id));
                        assert(closed.drop_last() =~= with_event);
                        assert(opened_ids(closed) =~= Seq::<u64>::empty());
                        assert(track_packet(entries, next_id, p).2 == closed);
                    } else {
                        assert(track_packet(entries, next_id, p).2 == with_event);
                    }
                    assert(track_packet(entries, next_id, p).1 == next_id);
                },
                None => {
                    let c = crate::capture::opened(next_id, p, k);
                    let with_event = reported.push(EventView::ConnectionOpened(c));
                    assert(with_event.drop_last() =~= reported);
                    assert(opened_ids(with_event) =~= seq![next_id]);
                    assert(with_event[reported.len() as int] == EventView::ConnectionOpened(c));
                    if is_closing(p) {
                        let closed = with_event.push(EventView::ConnectionClosed(c.id));
                        assert(closed.drop_last() =~= with_event);
                        assert(opened_ids(closed) =~= seq![next_id]);
                        assert(track_packet(entries, next_id, p).2 == closed);
                        assert(closed[reported.len() as int] == EventView::ConnectionOpened(c));
                    } else {
                        assert(track_packet(entries, next_id, p).2 == with_event);
                    }
                    assert(track_packet(entries, next_id, p).1 == next_id + 1);
                },
            }
        },
    }
}

/// Connection ids count up: handed packets one after another, a tracker
/// whose next id is `first` gives the connections it opens the ids
/// `first`, `first + 1`, ... in order, so no id is used twice; a new
/// tracker, whose next id is 1, numbers them 1, 2, 3, ....
pub proof fn law_connection_ids_count_up(
    entries: Seq<TrackedView>,
    first: u64,
    packets: Seq<PacketView>,
)
    requires
        first + packets.len() < u64::MAX,
    ensures
        ({
            let (e, n, ev) = track_packets(entries, first, packets);
            &&& first <= n <= first + packets.len()
            &&& opened_ids(ev) == Seq::new((n - first) as nat, |i: int| (first + i) as u64)
        }),
    decreases packets.len(),
{
    if packets.len() == 0 {
        let (e, n, ev) = track_packets(entries, first, packets);
        assert(opened_ids(ev) =~= Seq::new((n - first) as nat, |i: int| (first + i) as u64));
    } else {
        let init = packets.drop_last();
        law_connection_ids_count_up(entries, first, init);
        let (e, n, ev) = track_packets(entries, first, init);
        lemma_track_packet_ids(e, n, packets.last());
        let (e2, n2, ev2) = track_packet(e, n, packets.last());
        lemma_opened_ids_concat(ev, ev2);
        assert(opened_ids(ev + ev2) =~= Seq::new((n2 - first) as nat, |i: int| (first + i) as u64));
    }
}

/// A tracker numbers connections by its history: the connection a packet
/// opens gets one more than the number the tracker opened before (1 for
/// the first), with the packet's key as its endpoints and the packet's
/// process, protocol, version, direction and size; a packet that opens
/// none reports no opened connection.
pub proof fn law_connections_numbered_by_history(tracker: ConnectionTracker, p: PacketView)
    requires
        tracker.wf(),
        tracker.opened_count() + 1 < u64::MAX,
    ensures
        ({
            let (e, n, ev) = track_packet(tracker.entries(), tracker.next_id(), p);
            let id = (tracker.opened_count() + 1) as u64;
            &&& opens_connection(tracker.entries(), p) ==> {
                &&& opened_ids(ev) == seq![id]
                &&& ev.contains(
                    EventView::ConnectionOpened(crate::capture::opened(id, p, key_of(p)->0)),
                )
                &&& n == id + 1
            }
            &&& !opens_connection(tracker.entries(), p) ==> opened_ids(ev) == Seq::<u64>::empty()
                && n == id
        }),
{
    lemma_track_packet_ids(tracker.entries(), tracker.next_id(), p);
}

// ---------------------------------------------------------------------------
// Correlation

/// A request is never attributed when two remembered connections fit it:
/// correlation leaves it as it was.
pub proof fn law_correlation_never_guesses(
    entries: Seq<ObservedView>,
    window: u128,
    protocol: NetworkProtocol,
    local: SocketAddress,
    remote: SocketAddress,
    timestamp: i128,
    request: RequestView,
    a: int,
    b: int,
)
    requires
        0 <= a < entries.len(),
        0 <= b < entries.len(),
        a != b,
        is_candidate(entries[a], window, protocol, local, remote, timestamp),
        is_candidate(entries[b], window, protocol, local, remote, timestamp),
    ensures
        correlation_target(entries, window, protocol, local, remote, timestamp) is None,
        correlated_request(
            request,
            entries,
            correlation_target(entries, window, protocol, local, remote, timestamp),
        ) == request,
{
    if correlation_target(entries, window, protocol, local, remote, timestamp) is Some {
        let i = choose|i: int|
            0 <= i < entries.len() && is_candidate(entries[i], window, protocol, local, remote, timestamp)
                && forall|j: int|
                0 <= j < entries.len() && #[trigger] is_candidate(
                    entries[j],
                    window,
                    protocol,
                    local,
                    remote,
                    timestamp,
                ) ==> j == i;
        assert(a == i && b == i);
    }
}

/// No two remembered connections share an id.
pub open spec fn ids_unique(s: Seq<ObservedView>) -> bool {
    forall|i: int, j: int|
        0 <= i < s.len() && 0 <= j < s.len() && i != j ==> s[i].connection.id != s[j].connection.id
}

/// Once a connection with a known process is observed, a request seen on
/// its endpoints within the window is attributed to it, provided no other
/// remembered connection fits the request too.
pub proof fn law_observed_connection_claims_request(
    entries: Seq<ObservedView>,
    window: u128,
    connection: ConnectionView,
    observed_at: i128,
    local: SocketAddress,
    remote: SocketAddress,
    timestamp: i128,
    request: RequestView,
)
    requires
        ids_unique(entries),
        connection.process is Some,
        connection.local_ip == local.ip,
        connection.local_port == local.port,
        connection.remote_ip == remote.ip,
        connection.remote_port == remote.port,
        crate::correlation::time_distance(observed_at, timestamp) <= window,
        forall|j: int|
            0 <= j < entries.len() && entries[j].connection.id != connection.id ==> !is_candidate(
                #[trigger] entries[j],
                window,
                connection.protocol,
                local,
                remote,
                timestamp,
            ),
    ensures
        ({
            let after = observed_entries(entries, connection, observed_at);
            let target = correlation_target(
                after,
                window,
                connection.protocol,
                local,
                remote,
                timestamp,
            );
            let attributed = correlated_request(request, after, target);
            &&& target is Some
            &&& attributed.connection_id == Some(connection.id)
            &&& attributed.process == connection.process
        }),
{
    let after = observed_entries(entries, connection, observed_at);
    let new_entry = ObservedView { connection, observed_at };
    let p = connection.protocol;
    let pos: int = if exists|i: int| 0 <= i < entries.len() && entries[i].connection.id == connection.id {
        choose|i: int| 0 <= i < entries.len() && entries[i].connection.id == connection.id
    } else {
        entries.len() as int
    };
    assert(0 <= pos < after.len() && after[pos] == new_entry);
    assert(is_candidate(after[pos], window, p, local, remote, timestamp));
    assert forall|j: int|
        0 <= j < after.len() && #[trigger] is_candidate(after[j], window, p, local, remote, timestamp)
            implies j == pos by {
        if j != pos {
            assert(after[j] == entries[j]);
            if entries[j].connection.id == connection.id {
                assert(entries[pos].connection.id == connection.id);
            }
        }
    }
    let t = correlation_target(after, window, p, local, remote, timestamp);
    assert(t == Some(pos));
}

// ---------------------------------------------------------------------------
// Headers, rows and listing order

/// Redacting twice is redacting once, and never changes a header's name.
pub proof fn law_redaction_is_idempotent(h: HeaderView)
    ensures
        redacted_header(redacted_header(h)) == redacted_header(h),
        redacted_header(h).name == h.name,
{
}

/// Applications are listed before background processes.
pub proof fn law_applications_listed_first(
    before: Seq<ProcessRowView>,
    after: Seq<ProcessRowView>,
    k: int,
    l: int,
)
    requires
        prioritised(before, after),
        0 <= k < l < after.len(),
        after[l].application,
    ensures
        after[k].application,
{
    let perm = choose|perm: Seq<int>| crate::ui::runtime::prioritised_by(before, after, perm);
    assert(!ranks_before(after[l], after[k]));
}

/// Rows of proxied requests never take the id of a connection's row, as
/// long as connection ids stay below 2^63.
pub proof fn law_request_rows_apart_from_connection_rows(
    request: RequestView,
    local: SocketAddress,
    remote: SocketAddress,
    connection: ConnectionView,
    packet_count: u64,
)
    requires
        connection.id < HTTP_ROW_ID_BIT,
    ensures
        http_row(request, local, remote).id != connection_row(connection, packet_count).id,
{
    let a = request.id;
    let b = connection.id;
    assert((a | 0x8000_0000_0000_0000u64) != b) by (bit_vector)
        requires
            b < 0x8000_0000_0000_0000u64,
    ;
}

/// Once a row is removed by its id, no row with that id is left.
pub proof fn law_removed_rows_are_gone(rows: Seq<RowView>, id: u64)
    ensures
        forall|i: int| 0 <= i < rows_without(rows, id).len() ==> (#[trigger] rows_without(rows, id)[i]).id != id,
    decreases rows.len(),
{
    if rows.len() > 0 {
        law_removed_rows_are_gone(rows.drop_last(), id);
    }
}

/// A filter of nothing but whitespace shows every row.
pub proof fn law_blank_filter_shows_everything(e: RowView, filter: Seq<char>)
    requires
        forall|i: int| 0 <= i < filter.len() ==> is_space(#[trigger] filter[i]),
    ensures
        filter_accepts(e, filter),
{
    lemma_all_space(filter, 0);
    assert(words(filter) =~= Seq::<Seq<char>>::empty());
    assert(filter_problem(filter) is None);
}

proof fn lemma_all_space(s: Seq<char>, i: int)
    requires
        0 <= i <= s.len(),
        forall|k: int| 0 <= k < s.len() ==> is_space(#[trigger] s[k]),
    ensures
        skip_space(s, i) == s.len(),
    decreases s.len() - i,
{
    if i < s.len() {
        lemma_all_space(s, i + 1);
    }
}

/// A filter with a faulty term shows no row.
pub proof fn law_invalid_filter_shows_nothing(e: RowView, filter: Seq<char>)
    requires
        filter_problem(filter) is Some,
    ensures
        !filter_accepts(e, filter),
{
}

/// Every shown row passes the filter and, when a process is selected,
/// belongs to it.
pub proof fn law_visible_rows_pass_the_view(rows: Seq<RowView>, selected_pid: Option<u32>, filter: Seq<char>)
    ensures
        forall|k: int|
            0 <= k < visible_rows(rows, selected_pid, filter).len() ==> row_visible(
                #[trigger] visible_rows(rows, selected_pid, filter)[k],
                selected_pid,
                filter,
            ),
    decreases rows.len(),
{
    if rows.len() > 0 {
        let init = rows.drop_last();
        law_visible_rows_pass_the_view(init, selected_pid, filter);
        assert forall|k: int| 0 <= k < visible_rows(rows, selected_pid, filter).len() implies row_visible(
            #[trigger] visible_rows(rows, selected_pid, filter)[k],
            selected_pid,
            filter,
        ) by {
            if k < visible_rows(init, selected_pid, filter).len() {
                assert(visible_rows(rows, selected_pid, filter)[k] == visible_rows(
                    init,
                    selected_pid,
                    filter,
                )[k]);
            }
        }
    }
}

/// No two rows share an id.
pub open spec fn row_ids_unique(rows: Seq<RowView>) -> bool {
    forall|i: int, j: int| 0 <= i < rows.len() && 0 <= j < rows.len() && i != j ==> rows[i].id != rows[j].id
}

proof fn lemma_first_with_id(rows: Seq<NetworkEvent>, id: u64, k: int)
    requires
        0 <= k < rows.len(),
        rows[k].id == id,
    ensures
        first_with_id(rows, id) matches Some(i) && 0 <= i <= k && rows[i].id == id,
    decreases k,
{
    if exists|j: int| 0 <= j < k && rows[j].id == id {
        let j = choose|j: int| 0 <= j < k && rows[j].id == id;
        lemma_first_with_id(rows, id, j);
    } else {
        assert(0 <= k < rows.len() && rows[k].id == id && forall|j: int| 0 <= j < k ==> rows[j].id != id);
    }
}

/// Recording a row, which replaces the row with its id or is added, never
/// leaves two rows with one id.
pub proof fn law_recorded_rows_keep_ids_unique(rows: Seq<NetworkEvent>, event: NetworkEvent)
    requires
        row_ids_unique(rows.map_values(|e: NetworkEvent| e@)),
    ensures
        row_ids_unique(
            match first_with_id(rows, event.id) {
                Some(i) => rows.map_values(|e: NetworkEvent| e@).update(i, event@),
                None => rows.map_values(|e: NetworkEvent| e@).push(event@),
            },
        ),
{
    let d = rows.map_values(|e: NetworkEvent| e@);
    if exists|k: int| 0 <= k < rows.len() && rows[k].id == event.id {
        let k = choose|k: int| 0 <= k < rows.len() && rows[k].id == event.id;
        lemma_first_with_id(rows, event.id, k);
    }
    match first_with_id(rows, event.id) {
        Some(i) => {
            let u = d.update(i, event@);
            assert(rows[i].id == event.id);
            assert forall|a: int, b: int| 0 <= a < u.len() && 0 <= b < u.len() && a != b implies u[a].id
                != u[b].id by {
                if a == i {
                    assert(d[b].id != d[i].id);
                } else if b == i {
                    assert(d[a].id != d[i].id);
                } else {
                    assert(d[a].id != d[b].id);
                }
            }
        },
        None => {
            let u = d.push(event@);
            assert forall|a: int| 0 <= a < d.len() implies d[a].id != event.id by {
                assert(d[a].id == rows[a].id);
            }
            assert forall|a: int, b: int| 0 <= a < u.len() && 0 <= b < u.len() && a != b implies u[a].id
                != u[b].id by {
                if a < d.len() && b < d.len() {
                    assert(d[a].id != d[b].id);
                }
            }
        },
    }
}

// ---------------------------------------------------------------------------
// Traffic counting, attribution, parsing, port filters and redaction

/// A byte count after adding `size`, held at the largest `u64`.
pub open spec fn count_plus(count: u64, size: int) -> int {
    if count + size > u64::MAX {
        u64::MAX as int
    } else {
        count + size
    }
}

/// A packet on a tracked connection adds its size to the bytes received
/// when it comes in, and to the bytes sent when it goes out (held at the
/// largest `u64`); the other count stays, the connection keeps its id,
/// endpoints and protocol, and takes the packet's process only when it
/// had none.
/// The update is the packet's last event but for the close a FIN or RST
/// adds after it.
pub proof fn law_packets_accumulate_bytes(entries: Seq<TrackedView>, next_id: u64, p: PacketView)
    requires
        keys_unique(entries),
        key_of(p) is Some,
        key_position(retained(entries, p.timestamp), key_of(p)->0) is Some,
    ensures
        ({
            let live = retained(entries, p.timestamp);
            let before = live[key_position(live, key_of(p)->0)->0].connection;
            let (e, n, ev) = track_packet(entries, next_id, p);
            let back: int = if is_closing(p) {
                2
            } else {
                1
            };
            let size = p.packet_size as int;
            &&& n == next_id
            &&& ev.len() >= back
            &&& ev[ev.len() - back] matches EventView::ConnectionUpdated(c)
            &&& ev[ev.len() - back]->ConnectionUpdated_0.id == before.id
            &&& ev[ev.len() - back]->ConnectionUpdated_0.process == if before.process is None {
                p.process
            } else {
                before.process
            }
            &&& ev[ev.len() - back]->ConnectionUpdated_0.local_ip == before.local_ip
            &&& ev[ev.len() - back]->ConnectionUpdated_0.local_port == before.local_port
            &&& ev[ev.len() - back]->ConnectionUpdated_0.remote_ip == before.remote_ip
            &&& ev[ev.len() - back]->ConnectionUpdated_0.remote_port == before.remote_port
            &&& ev[ev.len() - back]->ConnectionUpdated_0.protocol == before.protocol
            &&& ev[ev.len() - back]->ConnectionUpdated_0.bytes_received == if p.direction
                == ConnectionDirection::Inbound {
                count_plus(before.bytes_received, size)
            } else {
                before.bytes_received as int
            }
            &&& ev[ev.len() - back]->ConnectionUpdated_0.bytes_sent == if p.direction
                == ConnectionDirection::Outbound {
                count_plus(before.bytes_sent, size)
            } else {
                before.bytes_sent as int
            }
        }),
{
    let k = key_of(p)->0;
    let live = retained(entries, p.timestamp);
    let i = key_position(live, k)->0;
    let reported = seq![EventView::PacketCaptured(p)] + expiry_events(entries, p.timestamp);
    let c = crate::capture::counted(live[i].connection, p);
    let with_event = reported.push(EventView::ConnectionUpdated(c));
    assert(with_event[with_event.len() - 1] == EventView::ConnectionUpdated(c));
    if is_closing(p) {
        let closed = with_event.push(EventView::ConnectionClosed(c.id));
        assert(closed[closed.len() - 2] == EventView::ConnectionUpdated(c));
        assert(track_packet(entries, next_id, p).2 == closed);
    } else {
        assert(track_packet(entries, next_id, p).2 == with_event);
    }
}

/// Whether a remembered connection fits a request: same protocol, local
/// and remote address and port, a known process, and seen within the
/// window of the request's time.
pub open spec fn fits_request(
    o: ObservedView,
    window: u128,
    protocol: NetworkProtocol,
    local: SocketAddress,
    remote: SocketAddress,
    timestamp: i128,
) -> bool {
    &&& o.connection.protocol == protocol
    &&& o.connection.local_ip == local.ip
    &&& o.connection.local_port == local.port
    &&& o.connection.remote_ip == remote.ip
    &&& o.connection.remote_port == remote.port
    &&& o.connection.process is Some
    &&& -(window as int) <= o.observed_at - timestamp <= window as int
}

/// A request is only ever attributed to a remembered connection that fits
/// it (the request's protocol, local address and port, remote address and
/// port, a known process, seen no further from the request's time than the
/// window), and only when no other remembered connection fits; and when
/// at most one fits but none is chosen, none fits.
pub proof fn law_attribution_matches_endpoints(
    entries: Seq<ObservedView>,
    window: u128,
    protocol: NetworkProtocol,
    local: SocketAddress,
    remote: SocketAddress,
    timestamp: i128,
)
    ensures
        correlation_target(entries, window, protocol, local, remote, timestamp) matches Some(i)
            ==> {
            let c = entries[i].connection;
            &&& 0 <= i < entries.len()
            &&& c.protocol == protocol
            &&& c.local_ip == local.ip
            &&& c.local_port == local.port
            &&& c.remote_ip == remote.ip
            &&& c.remote_port == remote.port
            &&& c.process is Some
            &&& -(window as int) <= entries[i].observed_at - timestamp <= window as int
            &&& forall|j: int|
                0 <= j < entries.len() && j != i ==> !fits_request(
                    #[trigger] entries[j],
                    window,
                    protocol,
                    local,
                    remote,
                    timestamp,
                )
        },
        correlation_target(entries, window, protocol, local, remote, timestamp) is None ==> (
        forall|i: int, j: int|
            0 <= i < j < entries.len() && fits_request(
                #[trigger] entries[i],
                window,
                protocol,
                local,
                remote,
                timestamp,
            ) ==> !fits_request(#[trigger] entries[j], window, protocol, local, remote, timestamp))
            ==> forall|i: int|
            0 <= i < entries.len() ==> !fits_request(
                #[trigger] entries[i],
                window,
                protocol,
                local,
                remote,
                timestamp,
            ),
{
    assert forall|i: int| 0 <= i < entries.len() implies #[trigger] fits_request(
        entries[i],
        window,
        protocol,
        local,
        remote,
        timestamp,
    ) == is_candidate(entries[i], window, protocol, local, remote, timestamp) by {}
    if correlation_target(entries, window, protocol, local, remote, timestamp) is None {
        if (forall|i: int, j: int|
            0 <= i < j < entries.len() && fits_request(
                #[trigger] entries[i],
                window,
                protocol,
                local,
                remote,
                timestamp,
            ) ==> !fits_request(#[trigger] entries[j], window, protocol, local, remote, timestamp)) {
            assert forall|i: int| 0 <= i < entries.len() implies !fits_request(
                #[trigger] entries[i],
                window,
                protocol,
                local,
                remote,
                timestamp,
            ) by {
                if fits_request(entries[i], window, protocol, local, remote, timestamp) {
                    assert forall|j: int|
                        0 <= j < entries.len() && #[trigger] is_candidate(
                            entries[j],
                            window,
                            protocol,
                            local,
                            remote,
                            timestamp,
                        ) implies j == i by {
                        if j < i {
                            assert(fits_request(entries[j], window, protocol, local, remote, timestamp));
                        } else if j > i {
                            assert(fits_request(entries[j], window, protocol, local, remote, timestamp));
                        }
                    }
                }
            }
        }
    }
    if correlation_target(entries, window, protocol, local, remote, timestamp) is Some {
        let i = correlation_target(entries, window, protocol, local, remote, timestamp)->0;
        assert(is_candidate(entries[i], window, protocol, local, remote, timestamp));
    }
}

/// A packet that is attributed keeps its request's endpoints: correlation
/// only fills in a connection whose endpoints are the request's.
pub proof fn law_attributed_request_names_its_connection(
    entries: Seq<ObservedView>,
    window: u128,
    protocol: NetworkProtocol,
    local: SocketAddress,
    remote: SocketAddress,
    timestamp: i128,
    request: RequestView,
)
    ensures
        ({
            let target = correlation_target(entries, window, protocol, local, remote, timestamp);
            let attributed = correlated_request(request, entries, target);
            attributed != request ==> exists|i: int|
                0 <= i < entries.len() && attributed.connection_id == Some(
                    entries[i].connection.id,
                ) && entries[i].connection.local_port == local.port
                    && entries[i].connection.local_ip == local.ip
                    && entries[i].connection.remote_port == remote.port
                    && entries[i].connection.remote_ip == remote.ip
        }),
{
    law_attribution_matches_endpoints(entries, window, protocol, local, remote, timestamp);
    let target = correlation_target(entries, window, protocol, local, remote, timestamp);
    if target is Some {
        let i = target->0;
        assert(correlated_request(request, entries, target).connection_id == Some(
            entries[i].connection.id,
        ));
    }
}

/// A parsed packet carries what its headers say: a TCP header's ports and
/// FIN and RST flags, a UDP header's ports with no flags, the IP header's
/// addresses and version, the direction it was seen in, its size and its
/// payload's, and its bytes only when asked to keep them. (The bytes are a
/// slice, so their number fits in a `usize`.)
pub proof fn law_parsed_packets_keep_header_fields(
    layers: PacketLayers,
    data: Seq<u8>,
    outbound: bool,
    retain_raw_packet: bool,
    timestamp: i128,
)
    requires
        layers.network is Some,
        layers.transport is Some,
        data.len() <= usize::MAX,
    ensures
        layers_accepted(layers),
        ({
            let v = captured_view(layers, data, outbound, retain_raw_packet, timestamp);
            &&& match layers.transport {
                Some(TransportLayer::Tcp(s, d, fin, rst)) => {
                    &&& v.protocol == NetworkProtocol::TCP
                    &&& v.source_port == Some(s)
                    &&& v.destination_port == Some(d)
                    &&& v.tcp_fin == fin
                    &&& v.tcp_rst == rst
                },
                Some(TransportLayer::Udp(s, d)) => {
                    &&& v.protocol == NetworkProtocol::UDP
                    &&& v.source_port == Some(s)
                    &&& v.destination_port == Some(d)
                    &&& !v.tcp_fin
                    &&& !v.tcp_rst
                },
                None => false,
            }
            &&& match layers.network {
                Some(NetworkLayer::V4(s, d)) => v.source_ip == IpAddress::V4(be_u32(s))
                    && v.destination_ip == IpAddress::V4(be_u32(d)) && v.ip_version
                    == crate::model::IpVersion::V4,
                Some(NetworkLayer::V6(s, d)) => v.source_ip == IpAddress::V6(be_u128(s))
                    && v.destination_ip == IpAddress::V6(be_u128(d)) && v.ip_version
                    == crate::model::IpVersion::V6,
                None => false,
            }
            &&& v.direction == if outbound {
                ConnectionDirection::Outbound
            } else {
                ConnectionDirection::Inbound
            }
            &&& v.packet_size == data.len()
            &&& v.payload_size == layers.payload_len
            &&& v.timestamp == timestamp
            &&& v.process is None
            &&& v.raw_packet == if retain_raw_packet {
                Some(data)
            } else {
                None
            }
        }),
{
}

/// Whether an address text ends with a colon followed by `port`, that is
/// whether its port is `port`.
pub open spec fn address_has_port(address: Seq<char>, port: Seq<char>) -> bool {
    &&& address.len() > port.len()
    &&& address[address.len() - port.len() - 1] == ':'
    &&& forall|k: int| 0 <= k < port.len() ==> address[address.len() - port.len() + k] == port[k]
}

/// A `port:N` term (after lowercasing) matches a row exactly when its local
/// or remote address has the port `N`: the address ends with `:` then `N`.
pub proof fn law_port_term_matches_address_ports(e: RowView, token: Seq<char>, port: Seq<char>)
    requires
        unicode_lowercase(token) == "port:"@ + port,
    ensures
        term_matches(e, token) <==> address_has_port(e.local, port) || address_has_port(
            e.remote,
            port,
        ),
{
    reveal_strlit("port:");
    reveal_strlit("port");
    reveal_strlit(":");
    reveal_strlit("process");
    reveal_strlit("host");
    reveal_strlit("method");
    reveal_strlit("status");
    reveal_strlit("protocol");
    reveal_strlit("ip");
    let t = unicode_lowercase(token);
    assert(t[4] == ':');
    assert forall|j: int| 0 <= j < 4 implies t[j] != ':' by {
        assert(t[j] == "port:"@[j]);
    }
    assert(first_index_of_colon(t) == Some(4int)) by {
        let w = choose|w: int|
            0 <= w < t.len() && t[w] == ':' && forall|j: int| 0 <= j < w ==> t[j] != ':';
        assert(0 <= 4 < t.len() && t[4] == ':' && forall|j: int| 0 <= j < 4 ==> t[j] != ':');
        if w < 4 {
            assert(t[w] != ':');
        } else if w > 4 {
            assert(t[4] != ':');
        }
    }
    let key = t.subrange(0, 4);
    let value = t.subrange(5, t.len() as int);
    assert(key =~= "port"@);
    assert(value =~= port);
    assert(key != "process"@ && key != "host"@ && key != "method"@ && key != "status"@
        && key != "protocol"@ && key != "ip"@) by {
        assert("port"@[1] == 'o');
        assert("host"@[1] == 'o' && "host"@[0] == 'h');
        assert("method"@.len() == 6);
        assert("status"@.len() == 6);
        assert("process"@.len() == 7);
        assert("protocol"@.len() == 8);
        assert("ip"@.len() == 2);
    }
    let suffix = ":"@ + port;
    assert(suffix.len() == port.len() + 1);
    lemma_suffix_is_port(e.local, port);
    lemma_suffix_is_port(e.remote, port);
}

/// The position of the first colon, as `term_matches` splits a term.
spec fn first_index_of_colon(t: Seq<char>) -> Option<int> {
    crate::text::first_index_of(t, ':')
}

proof fn lemma_suffix_is_port(address: Seq<char>, port: Seq<char>)
    ensures
        crate::text::has_suffix(address, ":"@ + port) <==> address_has_port(address, port),
{
    reveal_strlit(":");
    let suffix = ":"@ + port;
    if crate::text::has_suffix(address, suffix) {
        let tail = address.subrange(address.len() - suffix.len(), address.len() as int);
        assert(tail[0] == suffix[0]);
        assert forall|k: int| 0 <= k < port.len() implies address[address.len() - port.len() + k]
            == port[k] by {
            assert(tail[k + 1] == suffix[k + 1]);
        }
    }
    if address_has_port(address, port) {
        let tail = address.subrange(address.len() - suffix.len(), address.len() as int);
        assert forall|k: int| 0 <= k < suffix.len() implies tail[k] == suffix[k] by {
            if k > 0 {
                assert(address[address.len() - port.len() + (k - 1)] == port[k - 1]);
            }
        }
        assert(tail =~= suffix);
    }
}

/// Whether a header name is sensitive does not depend on its ASCII case.
pub proof fn law_sensitivity_ignores_ascii_case(a: Seq<char>, b: Seq<char>)
    requires
        equal_ignoring_ascii_case(a, b),
    ensures
        is_sensitive_header(a) == is_sensitive_header(b),
{
}

/// Every casing of `authorization`, `proxy-authorization`, `cookie` and
/// `set-cookie` has its value redacted, and redaction keeps the name.
pub proof fn law_credentials_are_redacted_in_any_case(h: HeaderView)
    requires
        equal_ignoring_ascii_case(h.name, "authorization"@) || equal_ignoring_ascii_case(
            h.name,
            "proxy-authorization"@,
        ) || equal_ignoring_ascii_case(h.name, "cookie"@) || equal_ignoring_ascii_case(
            h.name,
            "set-cookie"@,
        ),
    ensures
        redacted_header(h).value == "[REDACTED]"@,
        redacted_header(h).name == h.name,
{
}

/// Closing idle connections keeps exactly those whose last packet is less
/// than the inactivity timeout before `now` (or after it): none that has
/// been idle that long survives, and none idle for less is dropped.
pub proof fn law_idle_close_follows_timeout(s: Seq<TrackedView>, now: i128)
    ensures
        forall|i: int|
            0 <= i < retained(s, now).len() ==> !((#[trigger] retained(s, now)[i]).last_seen <= now
                && now - retained(s, now)[i].last_seen >= CONNECTION_INACTIVITY_TIMEOUT),
        forall|j: int|
            0 <= j < s.len() && (now < (#[trigger] s[j]).last_seen || now - s[j].last_seen
                < CONNECTION_INACTIVITY_TIMEOUT) ==> retained(s, now).contains(s[j]),
    decreases s.len(),
{
    if s.len() > 0 {
        let init = s.drop_last();
        law_idle_close_follows_timeout(init, now);
        assert forall|i: int| 0 <= i < retained(s, now).len() implies !((#[trigger] retained(
            s,
            now,
        )[i]).last_seen <= now && now - retained(s, now)[i].last_seen
            >= CONNECTION_INACTIVITY_TIMEOUT) by {
            if i < retained(init, now).len() {
                assert(retained(s, now)[i] == retained(init, now)[i]);
            }
        }
        assert forall|j: int|
            0 <= j < s.len() && (now < (#[trigger] s[j]).last_seen || now - s[j].last_seen
                < CONNECTION_INACTIVITY_TIMEOUT) implies retained(s, now).contains(s[j]) by {
            if j < init.len() {
                assert(s[j] == init[j]);
                let k = choose|k: int| 0 <= k < retained(init, now).len() && retained(init, now)[k] == init[j];
                assert(retained(s, now)[k] == retained(init, now)[k]);
            } else {
                assert(retained(s, now)[retained(s, now).len() - 1] == s[j]);
            }
        }
    }
}

/// A packet with both ports and no live connection of its key opens one,
/// numbered `next_id`, between its local and remote endpoints (the source
/// is local for an outbound packet, the destination for an inbound one),
/// with the packet's process, protocol, IP version and direction, no host
/// name, and its size counted as sent or received by its direction.
pub proof fn law_first_packet_opens_connection(entries: Seq<TrackedView>, next_id: u64, p: PacketView)
    requires
        p.source_port is Some,
        p.destination_port is Some,
        key_position(retained(entries, p.timestamp), key_of(p)->0) is None,
    ensures
        ({
            let (e, n, ev) = track_packet(entries, next_id, p);
            let outbound = p.direction == ConnectionDirection::Outbound;
            let size = p.packet_size as int;
            exists|j: int|
                0 <= j < ev.len() && ((#[trigger] ev[j]) matches EventView::ConnectionOpened(c) && {
                    &&& c.id == next_id
                    &&& c.local_ip == if outbound {
                        p.source_ip
                    } else {
                        p.destination_ip
                    }
                    &&& Some(c.local_port) == if outbound {
                        p.source_port
                    } else {
                        p.destination_port
                    }
                    &&& c.remote_ip == if outbound {
                        p.destination_ip
                    } else {
                        p.source_ip
                    }
                    &&& Some(c.remote_port) == if outbound {
                        p.destination_port
                    } else {
                        p.source_port
                    }
                    &&& c.process == p.process
                    &&& c.protocol == p.protocol
                    &&& c.ip_version == p.ip_version
                    &&& c.direction == p.direction
                    &&& c.hostname is None
                    &&& c.bytes_sent == if outbound {
                        size
                    } else {
                        0
                    }
                    &&& c.bytes_received == if outbound {
                        0
                    } else {
                        size
                    }
                })
        }),
{
    let k = key_of(p)->0;
    let reported = seq![EventView::PacketCaptured(p)] + expiry_events(entries, p.timestamp);
    let c = crate::capture::opened(next_id, p, k);
    let with_event = reported.push(EventView::ConnectionOpened(c));
    assert(with_event[reported.len() as int] == EventView::ConnectionOpened(c));
    if is_closing(p) {
        let closed = with_event.push(EventView::ConnectionClosed(c.id));
        assert(closed[reported.len() as int] == EventView::ConnectionOpened(c));
        assert(track_packet(entries, next_id, p).2 == closed);
    } else {
        assert(track_packet(entries, next_id, p).2 == with_event);
    }
}

/// A packet that neither is TCP with FIN or RST leaves its connection
/// tracked: afterwards a tracked connection has the packet's key.
pub proof fn law_open_connections_stay_tracked(entries: Seq<TrackedView>, next_id: u64, p: PacketView)
    requires
        key_of(p) is Some,
        !(p.protocol == NetworkProtocol::TCP && (p.tcp_fin || p.tcp_rst)),
    ensures
        exists|i: int|
            0 <= i < track_packet(entries, next_id, p).0.len() && (#[trigger] track_packet(
                entries,
                next_id,
                p,
            ).0[i]).key == key_of(p)->0,
{
    let k = key_of(p)->0;
    let live = retained(entries, p.timestamp);
    let e = track_packet(entries, next_id, p).0;
    match key_position(live, k) {
        Some(i) => {
            assert(e[i].key == k);
        },
        None => {
            assert(e[live.len() as int].key == k);
        },
    }
}

// ---------------------------------------------------------------------------
// The filter language, term by term

/// Whether `part` occurs in `text` starting at position `i`.
pub open spec fn occurs_at(text: Seq<char>, part: Seq<char>, i: int) -> bool {
    &&& 0 <= i
    &&& i + part.len() <= text.len()
    &&& forall|k: int| 0 <= k < part.len() ==> #[trigger] text[i + k] == part[k]
}

/// Whether `part` occurs in `text` as a contiguous run.
pub open spec fn occurs_in(text: Seq<char>, part: Seq<char>) -> bool {
    exists|i: int| #[trigger] occurs_at(text, part, i)
}

proof fn lemma_occurs_in(text: Seq<char>, part: Seq<char>)
    ensures
        has_infix(text, part) <==> occurs_in(text, part),
{
    if has_infix(text, part) {
        let i = choose|i: int|
            0 <= i && i + part.len() <= text.len() && #[trigger] text.subrange(i, i + part.len())
                == part;
        assert forall|k: int| 0 <= k < part.len() implies #[trigger] text[i + k] == part[k] by {
            assert(text.subrange(i, i + part.len())[k] == part[k]);
        }
        assert(occurs_at(text, part, i));
    }
    if occurs_in(text, part) {
        let i = choose|i: int| #[trigger] occurs_at(text, part, i);
        assert forall|k: int| 0 <= k < part.len() implies text.subrange(i, i + part.len())[k]
            == part[k] by {
            assert(text[i + k] == part[k]);
        }
        assert(text.subrange(i, i + part.len()) =~= part);
    }
}

proof fn lemma_filter_keys()
    ensures
        "process"@ != "host"@,
        "process"@ != "method"@,
        "process"@ != "status"@,
        "process"@ != "protocol"@,
        "process"@ != "ip"@,
        "process"@ != "port"@,
        "host"@ != "method"@,
        "host"@ != "status"@,
        "host"@ != "protocol"@,
        "host"@ != "ip"@,
        "host"@ != "port"@,
        "method"@ != "status"@,
        "method"@ != "protocol"@,
        "method"@ != "ip"@,
        "method"@ != "port"@,
        "status"@ != "protocol"@,
        "status"@ != "ip"@,
        "status"@ != "port"@,
        "protocol"@ != "ip"@,
        "protocol"@ != "port"@,
        "ip"@ != "port"@,
        forall|k: int| 0 <= k < "process"@.len() ==> #[trigger] "process"@[k] != ':',
        forall|k: int| 0 <= k < "host"@.len() ==> #[trigger] "host"@[k] != ':',
        forall|k: int| 0 <= k < "method"@.len() ==> #[trigger] "method"@[k] != ':',
        forall|k: int| 0 <= k < "status"@.len() ==> #[trigger] "status"@[k] != ':',
        forall|k: int| 0 <= k < "protocol"@.len() ==> #[trigger] "protocol"@[k] != ':',
        forall|k: int| 0 <= k < "ip"@.len() ==> #[trigger] "ip"@[k] != ':',
        forall|k: int| 0 <= k < "port"@.len() ==> #[trigger] "port"@[k] != ':',
{
    reveal_strlit("process");
    reveal_strlit("host");
    reveal_strlit("method");
    reveal_strlit("status");
    reveal_strlit("protocol");
    reveal_strlit("ip");
    reveal_strlit("port");
    assert("process"@[0] != "host"@[0] || "process"@.len() != "host"@.len() || "process"@[1] != "host"@[1] || "process"@[2] != "host"@[2]);
    assert("process"@[0] != "method"@[0] || "process"@.len() != "method"@.len() || "process"@[1] != "method"@[1] || "process"@[2] != "method"@[2]);
    assert("process"@[0] != "status"@[0] || "process"@.len() != "status"@.len() || "process"@[1] != "status"@[1] || "process"@[2] != "status"@[2]);
    assert("process"@[0] != "protocol"@[0] || "process"@.len() != "protocol"@.len() || "process"@[1] != "protocol"@[1] || "process"@[2] != "protocol"@[2]);
    assert("process"@[0] != "ip"@[0] || "process"@.len() != "ip"@.len() || "process"@[1] != "ip"@[1] || "process"@[2] != "ip"@[2]);
    assert("process"@[0] != "port"@[0] || "process"@.len() != "port"@.len() || "process"@[1] != "port"@[1] || "process"@[2] != "port"@[2]);
    assert("host"@[0] != "method"@[0] || "host"@.len() != "method"@.len() || "host"@[1] != "method"@[1] || "host"@[2] != "method"@[2]);
    assert("host"@[0] != "status"@[0] || "host"@.len() != "status"@.len() || "host"@[1] != "status"@[1] || "host"@[2] != "status"@[2]);
    assert("host"@[0] != "protocol"@[0] || "host"@.len() != "protocol"@.len() || "host"@[1] != "protocol"@[1] || "host"@[2] != "protocol"@[2]);
    assert("host"@[0] != "ip"@[0] || "host"@.len() != "ip"@.len() || "host"@[1] != "ip"@[1] || "host"@[2] != "ip"@[2]);
    assert("host"@[0] != "port"@[0] || "host"@.len() != "port"@.len() || "host"@[1] != "port"@[1] || "host"@[2] != "port"@[2]);
    assert("method"@[0] != "status"@[0] || "method"@.len() != "status"@.len() || "method"@[1] != "status"@[1] || "method"@[2] != "status"@[2]);
    assert("method"@[0] != "protocol"@[0] || "method"@.len() != "protocol"@.len() || "method"@[1] != "protocol"@[1] || "method"@[2] != "protocol"@[2]);
    assert("method"@[0] != "ip"@[0] || "method"@.len() != "ip"@.len() || "method"@[1] != "ip"@[1] || "method"@[2] != "ip"@[2]);
    assert("method"@[0] != "port"@[0] || "method"@.len() != "port"@.len() || "method"@[1] != "port"@[1] || "method"@[2] != "port"@[2]);
    assert("status"@[0] != "protocol"@[0] || "status"@.len() != "protocol"@.len() || "status"@[1] != "protocol"@[1] || "status"@[2] != "protocol"@[2]);
    assert("status"@[0] != "ip"@[0] || "status"@.len() != "ip"@.len() || "status"@[1] != "ip"@[1] || "status"@[2] != "ip"@[2]);
    assert("status"@[0] != "port"@[0] || "status"@.len() != "port"@.len() || "status"@[1] != "port"@[1] || "status"@[2] != "port"@[2]);
    assert("protocol"@[0] != "ip"@[0] || "protocol"@.len() != "ip"@.len() || "protocol"@[1] != "ip"@[1] || "protocol"@[2] != "ip"@[2]);
    assert("protocol"@[0] != "port"@[0] || "protocol"@.len() != "port"@.len() || "protocol"@[1] != "port"@[1] || "protocol"@[2] != "port"@[2]);
    assert("ip"@[0] != "port"@[0] || "ip"@.len() != "port"@.len() || "ip"@[1] != "port"@[1] || "ip"@[2] != "port"@[2]);
}

/// A term `key:value` splits at its first colon when the key has none.
proof fn lemma_split_term(t: Seq<char>, key: Seq<char>, value: Seq<char>)
    requires
        t == key + ":"@ + value,
        forall|k: int| 0 <= k < key.len() ==> key[k] != ':',
    ensures
        first_index_of(t, ':') == Some(key.len() as int),
        t.subrange(0, key.len() as int) == key,
        t.subrange(key.len() as int + 1, t.len() as int) == value,
{
    reveal_strlit(":");
    let n = key.len() as int;
    assert(t[n] == ':');
    assert forall|j: int| 0 <= j < n implies t[j] != ':' by {
        assert(t[j] == key[j]);
    }
    let w = choose|w: int| 0 <= w < t.len() && t[w] == ':' && forall|j: int| 0 <= j < w ==> t[j] != ':';
    assert(0 <= n < t.len() && t[n] == ':' && forall|j: int| 0 <= j < n ==> t[j] != ':');
    if w < n {
        assert(t[w] != ':');
    } else if w > n {
        assert(t[n] != ':');
    }
    assert(t.subrange(0, n) =~= key);
    assert(t.subrange(n + 1, t.len() as int) =~= value);
}

/// What a `key:value` term asks of a row, by its key: `process:`, `host:`
/// and `protocol:` look for the value in the lowercased process, host or
/// kind label, `method:` and `status:` compare the lowercased method or
/// the status number exactly, `ip:` looks in either address, `port:` asks
/// for an address ending in `:value`, and any other key matches nothing.
pub open spec fn key_term_holds(e: RowView, key: Seq<char>, value: Seq<char>) -> bool {
    if key == "process"@ {
        occurs_in(unicode_lowercase(e.process), value)
    } else if key == "host"@ {
        occurs_in(unicode_lowercase(e.host), value)
    } else if key == "method"@ {
        unicode_lowercase(e.method) == value
    } else if key == "status"@ {
        e.status matches Some(s) && decimal_text(s as nat) == value
    } else if key == "protocol"@ {
        occurs_in(unicode_lowercase(kind_label(e.kind)), value)
    } else if key == "ip"@ {
        occurs_in(e.local, value) || occurs_in(e.remote, value)
    } else if key == "port"@ {
        address_has_port(e.local, value) || address_has_port(e.remote, value)
    } else {
        false
    }
}

proof fn lemma_term_by_key(e: RowView, token: Seq<char>, key: Seq<char>, value: Seq<char>)
    requires
        unicode_lowercase(token) == key + ":"@ + value,
        forall|k: int| 0 <= k < key.len() ==> key[k] != ':',
    ensures
        term_matches(e, token) == if key == "process"@ {
            has_infix(unicode_lowercase(e.process), value)
        } else if key == "host"@ {
            has_infix(unicode_lowercase(e.host), value)
        } else if key == "method"@ {
            unicode_lowercase(e.method) == value
        } else if key == "status"@ {
            e.status matches Some(s) && decimal_text(s as nat) == value
        } else if key == "protocol"@ {
            has_infix(unicode_lowercase(kind_label(e.kind)), value)
        } else if key == "ip"@ {
            has_infix(e.local, value) || has_infix(e.remote, value)
        } else if key == "port"@ {
            crate::text::has_suffix(e.local, ":"@ + value) || crate::text::has_suffix(
                e.remote,
                ":"@ + value,
            )
        } else {
            false
        },
{
    let t = unicode_lowercase(token);
    lemma_split_term(t, key, value);
}

/// A lowercased filter term `key:value` (the key without a colon) matches a
/// row exactly as its key asks ([`key_term_holds`]).
pub proof fn law_key_terms_match_by_key(e: RowView, token: Seq<char>, key: Seq<char>, value: Seq<char>)
    requires
        unicode_lowercase(token) == key + ":"@ + value,
        forall|k: int| 0 <= k < key.len() ==> key[k] != ':',
    ensures
        term_matches(e, token) <==> key_term_holds(e, key, value),
{
    lemma_term_by_key(e, token, key, value);
    lemma_filter_keys();
    if key == "process"@ {
        lemma_occurs_in(unicode_lowercase(e.process), value);
    } else if key == "host"@ {
        lemma_occurs_in(unicode_lowercase(e.host), value);
    } else if key == "method"@ {
    } else if key == "status"@ {
    } else if key == "protocol"@ {
        lemma_occurs_in(unicode_lowercase(kind_label(e.kind)), value);
    } else if key == "ip"@ {
        lemma_occurs_in(e.local, value);
        lemma_occurs_in(e.remote, value);
    } else if key == "port"@ {
        lemma_suffix_is_port(e.local, value);
        lemma_suffix_is_port(e.remote, value);
    }
}

/// A lowercased term without a colon is free text: it matches a row when
/// it occurs in the row's search text.
pub proof fn law_free_text_terms_search(e: RowView, token: Seq<char>)
    requires
        forall|k: int| 0 <= k < unicode_lowercase(token).len() ==> unicode_lowercase(token)[k] != ':',
    ensures
        term_matches(e, token) <==> occurs_in(search_text_of(e), unicode_lowercase(token)),
{
    let t = unicode_lowercase(token);
    assert(first_index_of(t, ':') is None);
    lemma_occurs_in(search_text_of(e), t);
}

/// A filter word `key:value` (the key without a colon) is faulty exactly
/// when its lowercased key is none of `process`, `host`, `method`,
/// `status`, `protocol`, `ip` and `port`, or is `status` or `port` with a
/// value that is not a 16-bit number.
pub proof fn law_faulty_terms(token: Seq<char>, key: Seq<char>, value: Seq<char>)
    requires
        token == key + ":"@ + value,
        forall|k: int| 0 <= k < key.len() ==> key[k] != ':',
    ensures
        term_problem(token) is Some <==> {
            let lowered = unicode_lowercase(key);
            ||| !(lowered == "process"@ || lowered == "host"@ || lowered == "method"@ || lowered
                == "status"@ || lowered == "protocol"@ || lowered == "ip"@ || lowered == "port"@)
            ||| (lowered == "status"@ || lowered == "port"@) && parse_u16_text(value) is None
        },
{
    lemma_problem_by_key(token, key, value);
}

proof fn lemma_problem_by_key(token: Seq<char>, key: Seq<char>, value: Seq<char>)
    requires
        token == key + ":"@ + value,
        forall|k: int| 0 <= k < key.len() ==> key[k] != ':',
    ensures
        term_problem(token) is Some <==> (!crate::ui::application::known_filter_key(
            unicode_lowercase(key),
        ) || crate::ui::application::numeric_filter_key(unicode_lowercase(key))
            && parse_u16_text(value) is None),
{
    lemma_split_term(token, key, value);
    let i = key.len() as int;
    assert(first_index_of(token, ':') == Some(i));
    assert(token.subrange(0, i) == key);
    assert(token.subrange(i + 1, token.len() as int) == value);
}

} // verus!
