//! The HTTP proxy's decisions: which CONNECT targets are inspected, where a
//! request is forwarded, when a connection becomes a tunnel, and what is
//! recorded of each exchange.

use vstd::prelude::*;

use crate::address::{IpAddress, SocketAddress};
use crate::authority::{CertificateError, LocalCertificateAuthority};
use crate::model::{redact_headers, redacted_header, HeaderView, HttpHeader, HttpRequestInfo, RequestView};
use crate::text::{
    chars_of, equal_ignoring_ascii_case, extend_chars, extend_with, find_char, first_index_of,
    slice_chars, str_eq_ignore_ascii_case, chars_eq_ignore_ascii_case, string_from_chars,
    trim_chars, trimmed,
};

verus! {

broadcast use vstd::string::group_string_axioms;

/// The port the proxy listens on by default.
pub const DEFAULT_PROXY_PORT: u16 = 8877;

/// The most body bytes read from a request or a response: 16 MiB.
pub const MAX_BODY_BYTES: usize = 16777216;

/// The address the proxy listens on by default: `127.0.0.1:8877`.
pub fn default_proxy_address() -> (r: SocketAddress)
    ensures
        r == (SocketAddress { ip: IpAddress::V4(0x7f00_0001), port: DEFAULT_PROXY_PORT }),
{
    SocketAddress { ip: IpAddress::V4(0x7f00_0001), port: DEFAULT_PROXY_PORT }
}

/// A request the proxy handled, with the client it came from.
pub struct ProxyEvent {
    pub client_address: SocketAddress,
    pub request: HttpRequestInfo,
}

impl Clone for ProxyEvent {
    fn clone(&self) -> (r: Self)
        ensures
            r.client_address == self.client_address,
            r.request@ == self.request@,
    {
        ProxyEvent { client_address: self.client_address, request: self.request.clone() }
    }
}

#[verifier::external_type_specification]
#[verifier::external_body]
#[verifier::reject_recursive_types(T)]
pub struct ExUnboundedSender<T>(tokio::sync::mpsc::UnboundedSender<T>);

/// The proxy before it is started: where it listens, where it reports the
/// requests it handles, whether it keeps bodies, and the authority it
/// inspects HTTPS with, if any.
pub struct HttpProxy {
    pub bind_address: SocketAddress,
    pub event_sender: tokio::sync::mpsc::UnboundedSender<ProxyEvent>,
    pub capture_bodies: bool,
    pub certificate_authority: Option<LocalCertificateAuthority>,
}

impl HttpProxy {
    /// A proxy on the given address that keeps no bodies and inspects no
    /// HTTPS.
    pub fn new(bind_address: SocketAddress, event_sender: tokio::sync::mpsc::UnboundedSender<
        ProxyEvent,
    >) -> (r: Self)
        ensures
            r.bind_address == bind_address,
            r.event_sender == event_sender,
            !r.capture_bodies,
            r.certificate_authority is None,
    {
        HttpProxy { bind_address, event_sender, capture_bodies: false, certificate_authority: None }
    }

    /// A proxy on the default local address.
    pub fn localhost(event_sender: tokio::sync::mpsc::UnboundedSender<ProxyEvent>) -> (r: Self)
        ensures
            r.bind_address == (SocketAddress { ip: IpAddress::V4(0x7f00_0001), port: DEFAULT_PROXY_PORT }),
            r.event_sender == event_sender,
            !r.capture_bodies,
            r.certificate_authority is None,
    {
        Self::new(default_proxy_address(), event_sender)
    }

    /// The same proxy, keeping bodies or not.
    pub fn capture_bodies(self, enabled: bool) -> (r: Self)
        ensures
            r.capture_bodies == enabled,
            r.bind_address == self.bind_address,
            r.event_sender == self.event_sender,
            r.certificate_authority == self.certificate_authority,
    {
        HttpProxy { capture_bodies: enabled, ..self }
    }

    /// The same proxy, inspecting HTTPS with a new authority.
    pub fn enable_tls_inspection(self) -> (r: Result<Self, CertificateError>)
        ensures
            r matches Ok(p) ==> {
                &&& p.certificate_authority is Some
                &&& p.bind_address == self.bind_address
                &&& p.event_sender == self.event_sender
                &&& p.capture_bodies == self.capture_bodies
            },
    {
        match LocalCertificateAuthority::new(None) {
            Ok(ca) => Ok(HttpProxy { certificate_authority: Some(ca), ..self }),
            Err(e) => Err(e),
        }
    }

    /// The same proxy, inspecting HTTPS with the authority of a saved
    /// PKCS#8 key, which becomes the authority's key unchanged.
    pub fn enable_tls_inspection_with_private_key(self, private_key: &[u8]) -> (r: Result<
        Self,
        CertificateError,
    >)
        ensures
            r matches Ok(p) ==> {
                &&& p.certificate_authority matches Some(ca)
                &&& ca.material.private_key_der@ == private_key@
                &&& p.bind_address == self.bind_address
                &&& p.event_sender == self.event_sender
                &&& p.capture_bodies == self.capture_bodies
            },
    {
        match LocalCertificateAuthority::new(Some(private_key)) {
            Ok(ca) => Ok(HttpProxy { certificate_authority: Some(ca), ..self }),
            Err(e) => Err(e),
        }
    }

    /// The DER of the authority's certificate, when HTTPS is inspected.
    pub fn ca_certificate_der(&self) -> (r: Option<Vec<u8>>)
        ensures
            match &self.certificate_authority {
                Some(ca) => r matches Some(d) && d@ == ca.material.certificate_der@,
                None => r is None,
            },
    {
        match &self.certificate_authority {
            Some(ca) => Some(ca.material.certificate_der.clone()),
            None => None,
        }
    }

    /// The PKCS#8 DER of the authority's private key, when HTTPS is
    /// inspected.
    pub fn ca_private_key_der(&self) -> (r: Option<Vec<u8>>)
        ensures
            match &self.certificate_authority {
                Some(ca) => r matches Some(d) && d@ == ca.material.private_key_der@,
                None => r is None,
            },
    {
        match &self.certificate_authority {
            Some(ca) => Some(ca.material.private_key_der.clone()),
            None => None,
        }
    }
}

// ---------------------------------------------------------------------------
// CONNECT

/// Whether TLS to this host is passed through untouched: the Discord
/// gateway, whose edge refuses the proxy's own TLS handshake.
pub open spec fn passthrough_host(host: Seq<char>) -> bool {
    equal_ignoring_ascii_case(host, "gateway.discord.gg"@)
}

/// Whether TLS to this host is passed through rather than inspected.
pub fn requires_tls_passthrough(host: &str) -> (r: bool)
    ensures
        r == passthrough_host(host@),
{
    str_eq_ignore_ascii_case(host, "gateway.discord.gg")
}

/// What the proxy does with a CONNECT request.
#[derive(Debug, Clone, Copy, PartialEq, Eq, Structural)]
pub enum ConnectPlan {
    /// Terminate TLS with a certificate for the host and forward what is
    /// inside.
    Inspect,
    /// Relay the bytes to the target untouched.
    Tunnel,
}

/// A CONNECT to `host` is inspected when inspection is enabled and the host
/// is not passed through; otherwise it is tunnelled.
pub fn connect_plan(inspection_enabled: bool, host: &str) -> (r: ConnectPlan)
    ensures
        r == (if inspection_enabled && !passthrough_host(host@) {
            ConnectPlan::Inspect
        } else {
            ConnectPlan::Tunnel
        }),
{
    if inspection_enabled && !requires_tls_passthrough(host) {
        ConnectPlan::Inspect
    } else {
        ConnectPlan::Tunnel
    }
}

/// The body of the answer to a CONNECT request without a target.
pub fn missing_connect_target_text() -> (r: String)
    ensures
        r@ == "CONNECT target is missing"@,
{
    String::from_str("CONNECT target is missing")
}

/// The body of the answer when forwarding fails with the given error.
pub fn proxy_error_text(error: &str) -> (r: String)
    ensures
        r@ == "proxy error: "@ + error@,
{
    let mut out = chars_of("proxy error: ");
    extend_chars(&mut out, error);
    string_from_chars(&out)
}

// ---------------------------------------------------------------------------
// Headers

/// A header as the proxy records it: a value that is not visible ASCII
/// text is recorded as `<binary>`.
pub open spec fn observed_header_view(name: Seq<char>, value: Option<Seq<char>>) -> HeaderView {
    HeaderView {
        name,
        value: match value {
            Some(v) => v,
            None => "<binary>"@,
        },
    }
}

/// A header as the proxy records it, given its value as text when it is
/// visible ASCII.
pub fn observed_header(name: &str, value: Option<&str>) -> (r: HttpHeader)
    ensures
        r@ == observed_header_view(name@, match value {
            Some(v) => Some(v@),
            None => None,
        }),
{
    let value = match value {
        Some(v) => v.to_string(),
        None => String::from_str("<binary>"),
    };
    HttpHeader { name: name.to_string(), value }
}

/// The comma-separated fields of a header value, in order; a value without
/// a comma is one field.
pub open spec fn comma_fields(s: Seq<char>) -> Seq<Seq<char>>
    decreases s.len(),
{
    match first_index_of(s, ',') {
        Some(i) => if 0 <= i < s.len() {
            seq![s.subrange(0, i)] + comma_fields(s.subrange(i + 1, s.len() as int))
        } else {
            seq![s]
        },
        None => seq![s],
    }
}

/// Whether a `Connection` header value lists the `upgrade` option.
pub open spec fn lists_upgrade(value: Seq<char>) -> bool {
    exists|k: int|
        0 <= k < comma_fields(value).len() && equal_ignoring_ascii_case(
            trimmed(#[trigger] comma_fields(value)[k]),
            "upgrade"@,
        )
}

/// Whether a request asks to switch protocols: it has an `Upgrade` header
/// and a `Connection` header that lists `upgrade`.
pub open spec fn upgrade_requested(headers: Seq<HeaderView>) -> bool {
    &&& exists|i: int|
        0 <= i < headers.len() && equal_ignoring_ascii_case(#[trigger] headers[i].name, "upgrade"@)
    &&& exists|i: int|
        0 <= i < headers.len() && equal_ignoring_ascii_case(
            #[trigger] headers[i].name,
            "connection"@,
        ) && lists_upgrade(headers[i].value)
}

/// Whether a `Connection` header value lists the `upgrade` option.
fn value_lists_upgrade(value: &str) -> (r: bool)
    ensures
        r == lists_upgrade(value@),
{
    let upgrade = chars_of("upgrade");
    let mut rest = chars_of(value);
    let ghost fields_before: Seq<Seq<char>> = Seq::empty();
    let ghost whole = value@;
    loop
        invariant
            whole == value@,
            upgrade@ == "upgrade"@,
            comma_fields(whole) == fields_before + comma_fields(rest@),
            forall|k: int|
                0 <= k < fields_before.len() ==> !equal_ignoring_ascii_case(
                    trimmed(#[trigger] fields_before[k]),
                    "upgrade"@,
                ),
        decreases rest@.len(),
    {
        let ghost fields = comma_fields(rest@);
        match find_char(&rest, ',') {
            Some(i) => {
                assert(i < rest.len());
                let field = slice_chars(&rest, 0, i);
                let next = slice_chars(&rest, i + 1, rest.len());
                assert(fields == seq![rest@.subrange(0, i as int)] + comma_fields(next@));
                if chars_eq_ignore_ascii_case(&trim_chars(&field), &upgrade) {
                    assert(comma_fields(whole)[fields_before.len() as int] == field@);
                    return true;
                }
                proof {
                    assert(fields_before.push(field@) + comma_fields(next@) =~= fields_before
                        + fields);
                    fields_before = fields_before.push(field@);
                }
                rest = next;
            },
            None => {
                assert(fields == seq![rest@]);
                let last = trim_chars(&rest);
                let found = chars_eq_ignore_ascii_case(&last, &upgrade);
                proof {
                    if found {
                        assert(comma_fields(whole)[fields_before.len() as int] == rest@);
                    } else {
                        assert forall|k: int|
                            0 <= k < comma_fields(whole).len() implies !equal_ignoring_ascii_case(
                            trimmed(#[trigger] comma_fields(whole)[k]),
                            "upgrade"@,
                        ) by {
                            if k < fields_before.len() {
                                assert(comma_fields(whole)[k] == fields_before[k]);
                            } else {
                                assert(comma_fields(whole)[k] == rest@);
                            }
                        }
                    }
                }
                return found;
            },
        }
    }
}

/// Whether a request asks to switch protocols.
pub fn is_upgrade_request(headers: &[HttpHeader]) -> (r: bool)
    ensures
        r == upgrade_requested(headers@.map_values(|h: HttpHeader| h@)),
{
    let ghost hs = headers@.map_values(|h: HttpHeader| h@);
    let mut has_upgrade = false;
    let mut lists = false;
    let mut i: usize = 0;
    while i < headers.len()
        invariant
            i <= headers@.len(),
            hs == headers@.map_values(|h: HttpHeader| h@),
            has_upgrade == exists|k: int|
                0 <= k < i && equal_ignoring_ascii_case(#[trigger] hs[k].name, "upgrade"@),
            lists == exists|k: int|
                0 <= k < i && equal_ignoring_ascii_case(#[trigger] hs[k].name, "connection"@)
                    && lists_upgrade(hs[k].value),
        decreases headers@.len() - i,
    {
        let h = &headers[i];
        assert(hs[i as int] == h@);
        let names_upgrade = str_eq_ignore_ascii_case(h.name.as_str(), "upgrade");
        let lists_here = str_eq_ignore_ascii_case(h.name.as_str(), "connection")
            && value_lists_upgrade(h.value.as_str());
        proof {
            if names_upgrade {
                assert(equal_ignoring_ascii_case(hs[i as int].name, "upgrade"@));
            }
            if lists_here {
                assert(equal_ignoring_ascii_case(hs[i as int].name, "connection"@));
                assert(lists_upgrade(hs[i as int].value));
            }
            if !names_upgrade {
                assert forall|k: int|
                    0 <= k < i + 1 && equal_ignoring_ascii_case(
                        #[trigger] hs[k].name,
                        "upgrade"@,
                    ) implies k < i by {}
            }
            if !lists_here {
                assert forall|k: int|
                    0 <= k < i + 1 && equal_ignoring_ascii_case(
                        #[trigger] hs[k].name,
                        "connection"@,
                    ) && lists_upgrade(hs[k].value) implies k < i by {}
            }
        }
        has_upgrade = has_upgrade || names_upgrade;
        lists = lists || lists_here;
        i = i + 1;
    }
    has_upgrade && lists
}

/// Whether a header is meant for the proxy alone and is not forwarded.
pub open spec fn proxy_only_header(name: Seq<char>) -> bool {
    equal_ignoring_ascii_case(name, "proxy-authorization"@) || equal_ignoring_ascii_case(
        name,
        "proxy-connection"@,
    )
}

/// Whether a header is meant for the proxy alone and is not forwarded.
pub fn is_proxy_only_header(name: &str) -> (r: bool)
    ensures
        r == proxy_only_header(name@),
{
    str_eq_ignore_ascii_case(name, "proxy-authorization") || str_eq_ignore_ascii_case(
        name,
        "proxy-connection",
    )
}

// ---------------------------------------------------------------------------
// Forwarding

/// Where a request is forwarded.
pub struct RequestTarget {
    pub scheme: String,
    pub host: String,
    pub path: String,
    /// `scheme://host` followed by the path.
    pub uri: String,
}

/// The first of three optional texts that is present.
pub open spec fn first_present(
    a: Option<Seq<char>>,
    b: Option<Seq<char>>,
    c: Option<Seq<char>>,
) -> Option<Seq<char>> {
    if a is Some {
        a
    } else if b is Some {
        b
    } else {
        c
    }
}

/// The view of an optional string slice.
pub open spec fn text_option(s: Option<&str>) -> Option<Seq<char>> {
    match s {
        Some(t) => Some(t@),
        None => None,
    }
}

/// Copies the first of three optional texts that is present.
fn first_text(a: Option<&str>, b: Option<&str>, c: Option<&str>) -> (r: Option<String>)
    ensures
        match r {
            Some(t) => first_present(text_option(a), text_option(b), text_option(c)) == Some(t@),
            None => first_present(text_option(a), text_option(b), text_option(c)) is None,
        },
{
    match a {
        Some(t) => Some(t.to_string()),
        None => match b {
            Some(t) => Some(t.to_string()),
            None => match c {
                Some(t) => Some(t.to_string()),
                None => None,
            },
        },
    }
}

/// Where a request is forwarded: the host from the request line, else the
/// `Host` header, else the host of the CONNECT tunnel it came through; the
/// scheme of the tunnel, else of the request line, else `http`; the path
/// and query of the request line, else `/`. A request with no host at all
/// is refused with `request host is missing`.
pub fn request_target(
    authority: Option<&str>,
    host_header: Option<&str>,
    tunnel_host: Option<&str>,
    tunnel_scheme: Option<&str>,
    uri_scheme: Option<&str>,
    path_and_query: Option<&str>,
) -> (r: Result<RequestTarget, String>)
    ensures
        match first_present(text_option(authority), text_option(host_header), text_option(tunnel_host)) {
            None => r matches Err(e) && e@ == "request host is missing"@,
            Some(host) => r matches Ok(t) && {
                let scheme = first_present(
                    text_option(tunnel_scheme),
                    text_option(uri_scheme),
                    Some("http"@),
                )->0;
                let path = match path_and_query {
                    Some(p) => p@,
                    None => "/"@,
                };
                &&& t.host@ == host
                &&& t.scheme@ == scheme
                &&& t.path@ == path
                &&& t.uri@ == scheme + "://"@ + host + path
            },
        },
{
    let host = match first_text(authority, host_header, tunnel_host) {
        Some(h) => h,
        None => return Err(String::from_str("request host is missing")),
    };
    let scheme = match first_text(tunnel_scheme, uri_scheme, Some("http")) {
        Some(s) => s,
        None => String::from_str("http"),
    };
    let path = match path_and_query {
        Some(p) => p.to_string(),
        None => String::from_str("/"),
    };
    let mut uri = chars_of(scheme.as_str());
    extend_chars(&mut uri, "://");
    extend_chars(&mut uri, host.as_str());
    extend_chars(&mut uri, path.as_str());
    let uri = string_from_chars(&uri);
    Ok(RequestTarget { scheme, host, path, uri })
}

/// Whether the exchange becomes a tunnel: the upstream switched protocols
/// (status 101) for a request that asked to upgrade.
pub fn tunnels_upgrade(status: u16, upgrade_requested: bool) -> (r: bool)
    ensures
        r == (status == 101 && upgrade_requested),
{
    status == 101 && upgrade_requested
}

/// What is recorded of a forwarded exchange: the headers with sensitive
/// values redacted, the bodies only when bodies are captured, their sizes
/// always, and no process or connection yet.
pub open spec fn exchange_record(
    id: u64,
    method: Seq<char>,
    scheme: Seq<char>,
    host: Seq<char>,
    path: Seq<char>,
    request_headers: Seq<HeaderView>,
    request_body: Seq<u8>,
    capture_bodies: bool,
    status: u16,
    response_headers: Seq<HeaderView>,
    response_body: Seq<u8>,
    started_at: i128,
    duration_ms: u128,
) -> RequestView {
    RequestView {
        id,
        connection_id: None,
        process: None,
        method,
        scheme,
        host,
        path,
        request_headers: request_headers.map_values(|h: HeaderView| redacted_header(h)),
        request_body: if capture_bodies {
            Some(request_body)
        } else {
            None
        },
        request_body_size: request_body.len() as usize,
        status_code: Some(status),
        response_headers: response_headers.map_values(|h: HeaderView| redacted_header(h)),
        response_body: if capture_bodies {
            Some(response_body)
        } else {
            None
        },
        response_body_size: Some(response_body.len() as usize),
        started_at,
        duration_ms: Some(duration_ms),
        ja4: None,
    }
}

/// Redacted copies of headers.
fn redacted_copies(headers: &[HttpHeader]) -> (r: Vec<HttpHeader>)
    ensures
        r.deep_view() == headers@.map_values(|h: HttpHeader| h@).map_values(
            |h: HeaderView| redacted_header(h),
        ),
{
    let r = redact_headers(headers);
    assert(r.deep_view() =~= headers@.map_values(|h: HttpHeader| h@).map_values(
        |h: HeaderView| redacted_header(h),
    ));
    r
}

/// What is recorded of a forwarded exchange.
pub fn request_record(
    id: u64,
    method: String,
    target: RequestTarget,
    request_headers: &[HttpHeader],
    request_body: Vec<u8>,
    capture_bodies: bool,
    status: u16,
    response_headers: &[HttpHeader],
    response_body: Vec<u8>,
    started_at: i128,
    duration_ms: u128,
) -> (r: HttpRequestInfo)
    ensures
        r@ == exchange_record(
            id,
            method@,
            target.scheme@,
            target.host@,
            target.path@,
            request_headers@.map_values(|h: HttpHeader| h@),
            request_body@,
            capture_bodies,
            status,
            response_headers@.map_values(|h: HttpHeader| h@),
            response_body@,
            started_at,
            duration_ms,
        ),
{
    let request_body_size = request_body.len();
    let response_body_size = response_body.len();
    assert(request_body.deep_view() =~= request_body@);
    assert(response_body.deep_view() =~= response_body@);
    let r = HttpRequestInfo {
        id,
        connection_id: None,
        process: None,
        method,
        scheme: target.scheme,
        host: target.host,
        path: target.path,
        request_headers: redacted_copies(request_headers),
        request_body: if capture_bodies {
            Some(request_body)
        } else {
            None
        },
        request_body_size,
        status_code: Some(status),
        response_headers: redacted_copies(response_headers),
        response_body: if capture_bodies {
            Some(response_body)
        } else {
            None
        },
        response_body_size: Some(response_body_size),
        started_at,
        duration_ms: Some(duration_ms),
        ja4: None,
    };
    r
}

} // verus!
