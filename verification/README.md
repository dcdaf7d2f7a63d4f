# appwatch

A per-process network traffic monitor with an HTTP(S) inspection proxy.
The library (`src/`) holds the logic, verified with Verus; the program
(`app/`) runs it against the window, packet capture, the proxy server, the
database and the operating system.

## Library

- `address`: IP and socket addresses as plain integers, written as the
  standard library writes them (RFC 5952 for IPv6).
- `authority`: the local certificate authority that HTTPS inspection signs
  host certificates with (built by `rcgen`); a saved key brings back the
  same authority.
- `model`: processes, connections, packets, events and HTTP requests, with
  header redaction.
- `capture`: reading IP packets (sliced by `etherparse`) and following
  connections across packets, with idle connections closed after 30 s.
- `correlation`: attributing proxied requests to the one observed connection
  that fits them, never guessing between several.
- `proxy`: the proxy's settings and decisions (TLS inspection or
  passthrough, forwarding target, upgrades, what is recorded).
- `storage`: the rows written to SQLite.
- `system`: reading the system's socket owner tables and process snapshots,
  relaunching applications through the proxy.
- `ui`: the traffic view's rows, filter language, listing order, selection
  and summary.
- `laws`: properties that span several operations.
- `text`: character-level helpers.

Timestamps are signed nanoseconds since the Unix epoch (`i128`, negative
before it) throughout; durations are unsigned nanoseconds (`u128`).

## Program

`app/main.rs` starts the window (`eframe`); `app/runtime.rs` runs capture,
proxy and database on a worker thread; `app/proxy.rs` is the hyper server,
which presents the library's host certificates through `rustls`; `app/platform.rs`
holds the Win32 and WinDivert calls.
