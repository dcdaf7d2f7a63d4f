//! Attribution of proxied HTTP requests to observed connections.

use vstd::prelude::*;

use crate::address::{IpAddress, SocketAddress};
use crate::model::{
    clone_process, ConnectionView, HttpRequestInfo, NetworkConnection, NetworkProtocol,
    RequestView,
};

verus! {

/// The default correlation window: two seconds, in nanoseconds.
pub const DEFAULT_CORRELATION_WINDOW: u128 = 2_000_000_000;

/// The absolute distance between two instants, in nanoseconds.
pub open spec fn time_distance(left: i128, right: i128) -> u128 {
    if left >= right {
        (left - right) as u128
    } else {
        (right - left) as u128
    }
}

/// The absolute distance between two instants, in nanoseconds; it always
/// fits, as two `i128` values lie less than 2^128 apart.
pub fn time_difference(left: i128, right: i128) -> (r: u128)
    ensures
        r == time_distance(left, right),
{
    let (high, low) = if left >= right {
        (left, right)
    } else {
        (right, left)
    };
    if low >= 0 || high < 0 {
        (high - low) as u128
    } else {
        let below: i128 = -(low + 1);
        (high as u128) + (below as u128) + 1
    }
}

struct ObservedConnection {
    connection: NetworkConnection,
    observed_at: i128,
}

/// A connection as the correlator remembers it, with when it was last seen.
pub struct ObservedView {
    pub connection: ConnectionView,
    pub observed_at: i128,
}

spec fn observed_view(o: ObservedConnection) -> ObservedView {
    ObservedView { connection: o.connection@, observed_at: o.observed_at }
}

/// Remembers the connections seen on the wire so that requests seen by the
/// proxy can be attributed to the process that made them.
pub struct TrafficCorrelator {
    time_window: u128,
    connections: Vec<ObservedConnection>,
}

/// Whether a remembered connection is a candidate for a request seen with
/// the given protocol, endpoints and time: everything matches, a process is
/// known, and it was seen within the window.
pub open spec fn is_candidate(
    o: ObservedView,
    window: u128,
    protocol: NetworkProtocol,
    local: SocketAddress,
    remote: SocketAddress,
    timestamp: i128,
) -> bool {
    &&& o.connection.protocol == protocol
    &&& o.connection.local_ip == local.ip
    &&& o.connection.local_port == local.port
    &&& o.connection.remote_ip == remote.ip
    &&& o.connection.remote_port == remote.port
    &&& o.connection.process is Some
    &&& time_distance(o.observed_at, timestamp) <= window
}

/// The remembered connection a request is attributed to: the only
/// candidate, when there is exactly one; none when there is none or several.
pub open spec fn correlation_target(
    entries: Seq<ObservedView>,
    window: u128,
    protocol: NetworkProtocol,
    local: SocketAddress,
    remote: SocketAddress,
    timestamp: i128,
) -> Option<int> {
    if exists|i: int|
        0 <= i < entries.len() && is_candidate(entries[i], window, protocol, local, remote, timestamp)
            && forall|j: int|
            0 <= j < entries.len() && #[trigger] is_candidate(
                entries[j],
                window,
                protocol,
                local,
                remote,
                timestamp,
            ) ==> j == i {
        Some(
            choose|i: int|
                0 <= i < entries.len() && is_candidate(
                    entries[i],
                    window,
                    protocol,
                    local,
                    remote,
                    timestamp,
                ) && forall|j: int|
                    0 <= j < entries.len() && #[trigger] is_candidate(
                        entries[j],
                        window,
                        protocol,
                        local,
                        remote,
                        timestamp,
                    ) ==> j == i,
        )
    } else {
        None
    }
}

/// What correlation leaves of a request: attributed to the target's
/// connection and process when there is a target, else unchanged.
pub open spec fn correlated_request(
    request: RequestView,
    entries: Seq<ObservedView>,
    target: Option<int>,
) -> RequestView {
    match target {
        Some(i) => RequestView {
            connection_id: Some(entries[i].connection.id),
            process: entries[i].connection.process,
            ..request
        },
        None => request,
    }
}

/// The remembered connections after `connection` is seen at `observed_at`:
/// the entry with the same id is replaced in place, or the connection is
/// added at the end.
pub open spec fn observed_entries(
    entries: Seq<ObservedView>,
    connection: ConnectionView,
    observed_at: i128,
) -> Seq<ObservedView> {
    let new_entry = ObservedView { connection, observed_at };
    if exists|i: int| 0 <= i < entries.len() && entries[i].connection.id == connection.id {
        let i = choose|i: int| 0 <= i < entries.len() && entries[i].connection.id == connection.id;
        entries.update(i, new_entry)
    } else {
        entries.push(new_entry)
    }
}

impl TrafficCorrelator {
    /// The remembered connections, in the order they were first observed.
    pub closed spec fn entries(&self) -> Seq<ObservedView> {
        self.connections@.map_values(|o: ObservedConnection| observed_view(o))
    }

    /// The correlation window, in nanoseconds.
    pub closed spec fn window(&self) -> u128 {
        self.time_window
    }

    /// No two remembered connections share an id.
    pub open spec fn wf(&self) -> bool {
        forall|i: int, j: int|
            0 <= i < self.entries().len() && 0 <= j < self.entries().len() && i != j
                ==> #[trigger] self.entries()[i].connection.id
                != #[trigger] self.entries()[j].connection.id
    }

    #[verifier::type_invariant]
    spec fn unique_ids(&self) -> bool {
        forall|i: int, j: int|
            0 <= i < self.connections@.len() && 0 <= j < self.connections@.len() && i != j
                ==> #[trigger] self.connections@[i].connection.id
                != #[trigger] self.connections@[j].connection.id
    }

    /// A correlator with the given window that remembers nothing.
    pub fn new(time_window: u128) -> (r: Self)
        ensures
            r.window() == time_window,
            r.entries() == Seq::<ObservedView>::empty(),
            r.wf(),
    {
        let r = TrafficCorrelator { time_window, connections: Vec::new() };
        assert(r.entries() =~= Seq::<ObservedView>::empty());
        r
    }

    /// Remembers a connection as seen at `observed_at`: the entry with the
    /// same id is replaced in place, or the connection is added at the end.
    pub fn observe_connection(&mut self, connection: NetworkConnection, observed_at: i128)
        ensures
            final(self).wf(),
            final(self).window() == old(self).window(),
            final(self).entries() == observed_entries(old(self).entries(), connection@, observed_at),
    {
        proof {
            use_type_invariant(&*self);
        }
        let ghost old_entries = self.entries();
        let mut conns: Vec<ObservedConnection> = Vec::new();
        std::mem::swap(&mut conns, &mut self.connections);
        let mut i: usize = 0;
        while i < conns.len()
            invariant
                i <= conns@.len(),
                conns@.len() == old_entries.len(),
                forall|k: int| 0 <= k < conns@.len() ==> old_entries[k] == observed_view(#[trigger] conns@[k]),
                old_entries == old(self).entries(),
                forall|a: int, b: int|
                    0 <= a < conns@.len() && 0 <= b < conns@.len() && a != b
                        ==> #[trigger] conns@[a].connection.id
                        != #[trigger] conns@[b].connection.id,
                self.time_window == old(self).time_window,
                self.connections@.len() == 0,
                forall|k: int| 0 <= k < i ==> old_entries[k].connection.id != connection.id,
            decreases conns@.len() - i,
        {
            assert(old_entries[i as int].connection.id == conns@[i as int].connection.id);
            if conns[i].connection.id == connection.id {
                proof {
                    let c = choose|c: int|
                        0 <= c < old_entries.len() && old_entries[c].connection.id
                            == connection.id;
                    assert(old_entries[i as int].connection.id == connection.id);
                    if c != i {
                        assert(old_entries[c].connection.id == conns@[c].connection.id);
                        assert(old_entries[c].connection.id == old_entries[i as int].connection.id);
                    }
                }
                let ghost new_entry = ObservedView { connection: connection@, observed_at };
                let ghost before = conns@;
                conns.set(i, ObservedConnection { connection, observed_at });
                assert forall|a: int, b: int|
                    0 <= a < conns@.len() && 0 <= b < conns@.len() && a != b
                        implies #[trigger] conns@[a].connection.id
                    != #[trigger] conns@[b].connection.id by {
                    assert(conns@[a].connection.id == before[a].connection.id);
                    assert(conns@[b].connection.id == before[b].connection.id);
                }
                self.connections = conns;
                assert(self.entries() =~= old_entries.update(i as int, new_entry));
                return;
            }
            i = i + 1;
        }
        let ghost new_entry = ObservedView { connection: connection@, observed_at };
        let ghost before = conns@;
        assert forall|k: int| 0 <= k < before.len() implies before[k].connection.id
            != connection.id by {
            assert(old_entries[k].connection.id == before[k].connection.id);
        }
        conns.push(ObservedConnection { connection, observed_at });
        assert forall|a: int, b: int|
            0 <= a < conns@.len() && 0 <= b < conns@.len() && a != b
                implies #[trigger] conns@[a].connection.id
            != #[trigger] conns@[b].connection.id by {
            if a < before.len() && b < before.len() {
                assert(before[a].connection.id != before[b].connection.id);
            }
        }
        self.connections = conns;
        assert(self.entries() =~= old_entries.push(new_entry));
    }

    /// Attributes a request seen with the given protocol, endpoints and time
    /// to the one remembered connection it fits; when none or several fit,
    /// the request is left as it was and `false` is returned.
    pub fn correlate_http_request(
        &self,
        request: &mut HttpRequestInfo,
        protocol: NetworkProtocol,
        local: SocketAddress,
        remote: SocketAddress,
        timestamp: i128,
    ) -> (r: bool)
        ensures
            ({
                let target = correlation_target(
                    self.entries(),
                    self.window(),
                    protocol,
                    local,
                    remote,
                    timestamp,
                );
                &&& r == target is Some
                &&& final(request)@ == correlated_request(old(request)@, self.entries(), target)
            }),
    {
        let ghost entries = self.entries();
        let ghost cand = |k: int|
            is_candidate(entries[k], self.time_window, protocol, local, remote, timestamp);
        let mut found: Option<usize> = None;
        let mut i: usize = 0;
        while i < self.connections.len()
            invariant
                i <= self.connections@.len(),
                entries == self.entries(),
                entries.len() == self.connections@.len(),
                match found {
                    Some(f) => f < i && is_candidate(
                        entries[f as int],
                        self.time_window,
                        protocol,
                        local,
                        remote,
                        timestamp,
                    ) && forall|k: int|
                        0 <= k < i && #[trigger] is_candidate(
                            entries[k],
                            self.time_window,
                            protocol,
                            local,
                            remote,
                            timestamp,
                        ) ==> k == f,
                    None => forall|k: int|
                        0 <= k < i ==> !#[trigger] is_candidate(
                            entries[k],
                            self.time_window,
                            protocol,
                            local,
                            remote,
                            timestamp,
                        ),
                },
            decreases self.connections@.len() - i,
        {
            let item = &self.connections[i];
            assert(entries[i as int].connection == item.connection@);
            let c = &item.connection;
            let fits = c.protocol == protocol && c.local_ip == local.ip && c.local_port == local.port
                && c.remote_ip == remote.ip && c.remote_port == remote.port && c.process.is_some()
                && time_difference(item.observed_at, timestamp) <= self.time_window;
            if fits {
                match found {
                    Some(f) => {
                        proof {
                            assert(is_candidate(
                                entries[i as int],
                                self.time_window,
                                protocol,
                                local,
                                remote,
                                timestamp,
                            ));
                            let t = correlation_target(
                                entries,
                                self.time_window,
                                protocol,
                                local,
                                remote,
                                timestamp,
                            );
                            if t is Some {
                                let w = t->0;
                                assert(is_candidate(
                                    entries[f as int],
                                    self.time_window,
                                    protocol,
                                    local,
                                    remote,
                                    timestamp,
                                ));
                                assert(f as int == w && i as int == w);
                            }
                        }
                        return false;
                    },
                    None => {
                        found = Some(i);
                    },
                }
            }
            i = i + 1;
        }
        match found {
            Some(f) => {
                let matched = &self.connections[f].connection;
                proof {
                    let t = correlation_target(
                        entries,
                        self.time_window,
                        protocol,
                        local,
                        remote,
                        timestamp,
                    );
                    assert(0 <= f < entries.len() && is_candidate(
                        entries[f as int],
                        self.time_window,
                        protocol,
                        local,
                        remote,
                        timestamp,
                    ) && forall|j: int|
                        0 <= j < entries.len() && #[trigger] is_candidate(
                            entries[j],
                            self.time_window,
                            protocol,
                            local,
                            remote,
                            timestamp,
                        ) ==> j == f as int);
                    assert(t == Some(f as int));
                }
                request.connection_id = Some(matched.id);
                request.process = clone_process(&matched.process);
                true
            },
            None => false,
        }
    }
}

impl Default for TrafficCorrelator {
    fn default() -> (r: Self)
        ensures
            r.window() == DEFAULT_CORRELATION_WINDOW,
            r.entries() == Seq::<ObservedView>::empty(),
            r.wf(),
    {
        Self::new(DEFAULT_CORRELATION_WINDOW)
    }
}

} // verus!
