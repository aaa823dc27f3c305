use std::sync::Arc;
use vstd::prelude::*;
use vstd::utf8::*;

use crate::auth::{bcrypt_verdict, AuthManager};
use crate::conn::{copy_range, first_crlf_at, has_line, lemma_no_step, stepped, utf8_to_string, BufferedConnection};
use crate::dial::ConnectErrorKind;
use crate::http_parse::{
    all_digits, ascii_lower, decimal_value, first_colon, has_three_tokens, parse_content_length,
    split_header_line, split_request_line, to_ascii_lower, token, trimmed,
};
use crate::utils::{base64_decode, base64_decoded};

verus! {

/// The method of a tunnel request. (`CONNECT`)
pub open spec fn connect_text() -> Seq<u8> {
    seq![0x43u8, 0x4Fu8, 0x4Eu8, 0x4Eu8, 0x45u8, 0x43u8, 0x54u8]
}

fn connect_bytes() -> (r: &'static [u8])
    ensures
        r@ == connect_text(),
{
    let r: &'static [u8] = &[0x43, 0x4F, 0x4E, 0x4E, 0x45, 0x43, 0x54];
    assert(r@ =~= connect_text());
    r
}

/// A method that is forwarded to the target. (`GET`)
pub open spec fn get_text() -> Seq<u8> {
    seq![0x47u8, 0x45u8, 0x54u8]
}

fn get_bytes() -> (r: &'static [u8])
    ensures
        r@ == get_text(),
{
    let r: &'static [u8] = &[0x47, 0x45, 0x54];
    assert(r@ =~= get_text());
    r
}

/// A method that is forwarded to the target. (`POST`)
pub open spec fn post_text() -> Seq<u8> {
    seq![0x50u8, 0x4Fu8, 0x53u8, 0x54u8]
}

fn post_bytes() -> (r: &'static [u8])
    ensures
        r@ == post_text(),
{
    let r: &'static [u8] = &[0x50, 0x4F, 0x53, 0x54];
    assert(r@ =~= post_text());
    r
}

/// A method that is forwarded to the target. (`PUT`)
pub open spec fn put_text() -> Seq<u8> {
    seq![0x50u8, 0x55u8, 0x54u8]
}

fn put_bytes() -> (r: &'static [u8])
    ensures
        r@ == put_text(),
{
    let r: &'static [u8] = &[0x50, 0x55, 0x54];
    assert(r@ =~= put_text());
    r
}

/// A method that is forwarded to the target. (`DELETE`)
pub open spec fn delete_text() -> Seq<u8> {
    seq![0x44u8, 0x45u8, 0x4Cu8, 0x45u8, 0x54u8, 0x45u8]
}

fn delete_bytes() -> (r: &'static [u8])
    ensures
        r@ == delete_text(),
{
    let r: &'static [u8] = &[0x44, 0x45, 0x4C, 0x45, 0x54, 0x45];
    assert(r@ =~= delete_text());
    r
}

/// A method that is forwarded to the target. (`HEAD`)
pub open spec fn head_text() -> Seq<u8> {
    seq![0x48u8, 0x45u8, 0x41u8, 0x44u8]
}

fn head_bytes() -> (r: &'static [u8])
    ensures
        r@ == head_text(),
{
    let r: &'static [u8] = &[0x48, 0x45, 0x41, 0x44];
    assert(r@ =~= head_text());
    r
}

/// A method that is forwarded to the target. (`OPTIONS`)
pub open spec fn options_text() -> Seq<u8> {
    seq![0x4Fu8, 0x50u8, 0x54u8, 0x49u8, 0x4Fu8, 0x4Eu8, 0x53u8]
}

fn options_bytes() -> (r: &'static [u8])
    ensures
        r@ == options_text(),
{
    let r: &'static [u8] = &[0x4F, 0x50, 0x54, 0x49, 0x4F, 0x4E, 0x53];
    assert(r@ =~= options_text());
    r
}

/// A method that is forwarded to the target. (`PATCH`)
pub open spec fn patch_text() -> Seq<u8> {
    seq![0x50u8, 0x41u8, 0x54u8, 0x43u8, 0x48u8]
}

fn patch_bytes() -> (r: &'static [u8])
    ensures
        r@ == patch_text(),
{
    let r: &'static [u8] = &[0x50, 0x41, 0x54, 0x43, 0x48];
    assert(r@ =~= patch_text());
    r
}

/// The prefix of the proxy's own headers, which are never forwarded. (`proxy-`)
pub open spec fn proxy_dash_text() -> Seq<u8> {
    seq![0x70u8, 0x72u8, 0x6Fu8, 0x78u8, 0x79u8, 0x2Du8]
}

fn proxy_dash_bytes() -> (r: &'static [u8])
    ensures
        r@ == proxy_dash_text(),
{
    let r: &'static [u8] = &[0x70, 0x72, 0x6F, 0x78, 0x79, 0x2D];
    assert(r@ =~= proxy_dash_text());
    r
}

/// The name of the connection header, which is never forwarded. (`connection`)
pub open spec fn connection_name_text() -> Seq<u8> {
    seq![0x63u8, 0x6Fu8, 0x6Eu8, 0x6Eu8, 0x65u8, 0x63u8, 0x74u8, 0x69u8, 0x6Fu8, 0x6Eu8]
}

fn connection_name_bytes() -> (r: &'static [u8])
    ensures
        r@ == connection_name_text(),
{
    let r: &'static [u8] = &[0x63, 0x6F, 0x6E, 0x6E, 0x65, 0x63, 0x74, 0x69, 0x6F, 0x6E];
    assert(r@ =~= connection_name_text());
    r
}

/// The name of the header that gives the body's length. (`content-length`)
pub open spec fn content_length_name_text() -> Seq<u8> {
    seq![0x63u8, 0x6Fu8, 0x6Eu8, 0x74u8, 0x65u8, 0x6Eu8, 0x74u8, 0x2Du8, 0x6Cu8, 0x65u8, 0x6Eu8, 0x67u8, 0x74u8, 0x68u8]
}

fn content_length_name_bytes() -> (r: &'static [u8])
    ensures
        r@ == content_length_name_text(),
{
    let r: &'static [u8] = &[0x63, 0x6F, 0x6E, 0x74, 0x65, 0x6E, 0x74, 0x2D, 0x6C, 0x65, 0x6E, 0x67, 0x74, 0x68];
    assert(r@ =~= content_length_name_text());
    r
}

/// The name of the header that carries the client's credentials. (`proxy-authorization`)
pub open spec fn proxy_authorization_name_text() -> Seq<u8> {
    seq![0x70u8, 0x72u8, 0x6Fu8, 0x78u8, 0x79u8, 0x2Du8, 0x61u8, 0x75u8, 0x74u8, 0x68u8, 0x6Fu8, 0x72u8, 0x69u8, 0x7Au8, 0x61u8, 0x74u8, 0x69u8, 0x6Fu8, 0x6Eu8]
}

fn proxy_authorization_name_bytes() -> (r: &'static [u8])
    ensures
        r@ == proxy_authorization_name_text(),
{
    let r: &'static [u8] = &[0x70, 0x72, 0x6F, 0x78, 0x79, 0x2D, 0x61, 0x75, 0x74, 0x68, 0x6F, 0x72, 0x69, 0x7A, 0x61, 0x74, 0x69, 0x6F, 0x6E];
    assert(r@ =~= proxy_authorization_name_text());
    r
}

/// What the credentials in `Proxy-Authorization` start with. (`Basic `)
pub open spec fn basic_prefix_text() -> Seq<u8> {
    seq![0x42u8, 0x61u8, 0x73u8, 0x69u8, 0x63u8, 0x20u8]
}

fn basic_prefix_bytes() -> (r: &'static [u8])
    ensures
        r@ == basic_prefix_text(),
{
    let r: &'static [u8] = &[0x42, 0x61, 0x73, 0x69, 0x63, 0x20];
    assert(r@ =~= basic_prefix_text());
    r
}

/// What separates a header's name from its value. (`: `)
pub open spec fn colon_space_text() -> Seq<u8> {
    seq![0x3Au8, 0x20u8]
}

fn colon_space_bytes() -> (r: &'static [u8])
    ensures
        r@ == colon_space_text(),
{
    let r: &'static [u8] = &[0x3A, 0x20];
    assert(r@ =~= colon_space_text());
    r
}

/// The end of a line. (`\r\n`)
pub open spec fn crlf_text() -> Seq<u8> {
    seq![0x0Du8, 0x0Au8]
}

fn crlf_bytes() -> (r: &'static [u8])
    ensures
        r@ == crlf_text(),
{
    let r: &'static [u8] = &[0x0D, 0x0A];
    assert(r@ =~= crlf_text());
    r
}

/// The header that asks the upstream to close after one response. (`Connection: close\r\n`)
pub open spec fn connection_close_text() -> Seq<u8> {
    seq![0x43u8, 0x6Fu8, 0x6Eu8, 0x6Eu8, 0x65u8, 0x63u8, 0x74u8, 0x69u8, 0x6Fu8, 0x6Eu8, 0x3Au8, 0x20u8, 0x63u8, 0x6Cu8, 0x6Fu8, 0x73u8, 0x65u8, 0x0Du8, 0x0Au8]
}

fn connection_close_bytes() -> (r: &'static [u8])
    ensures
        r@ == connection_close_text(),
{
    let r: &'static [u8] = &[0x43, 0x6F, 0x6E, 0x6E, 0x65, 0x63, 0x74, 0x69, 0x6F, 0x6E, 0x3A, 0x20, 0x63, 0x6C, 0x6F, 0x73, 0x65, 0x0D, 0x0A];
    assert(r@ =~= connection_close_text());
    r
}

/// The answer to missing or refused credentials. (`HTTP/1.1 407 Proxy Authentication Required\r\nProxy-Authenticate: Basic realm="Proxy"\r\nContent-Length: 0\r\n\r\n`)
pub open spec fn auth_required_response_text() -> Seq<u8> {
    seq![0x48u8, 0x54u8, 0x54u8, 0x50u8, 0x2Fu8, 0x31u8, 0x2Eu8, 0x31u8, 0x20u8, 0x34u8, 0x30u8, 0x37u8, 0x20u8, 0x50u8, 0x72u8, 0x6Fu8, 0x78u8, 0x79u8, 0x20u8, 0x41u8, 0x75u8, 0x74u8, 0x68u8, 0x65u8, 0x6Eu8, 0x74u8, 0x69u8, 0x63u8, 0x61u8, 0x74u8, 0x69u8, 0x6Fu8, 0x6Eu8, 0x20u8, 0x52u8, 0x65u8, 0x71u8, 0x75u8, 0x69u8, 0x72u8, 0x65u8, 0x64u8, 0x0Du8, 0x0Au8, 0x50u8, 0x72u8, 0x6Fu8, 0x78u8, 0x79u8, 0x2Du8, 0x41u8, 0x75u8, 0x74u8, 0x68u8, 0x65u8, 0x6Eu8, 0x74u8, 0x69u8, 0x63u8, 0x61u8, 0x74u8, 0x65u8, 0x3Au8, 0x20u8, 0x42u8, 0x61u8, 0x73u8, 0x69u8, 0x63u8, 0x20u8, 0x72u8, 0x65u8, 0x61u8, 0x6Cu8, 0x6Du8, 0x3Du8, 0x22u8, 0x50u8, 0x72u8, 0x6Fu8, 0x78u8, 0x79u8, 0x22u8, 0x0Du8, 0x0Au8, 0x43u8, 0x6Fu8, 0x6Eu8, 0x74u8, 0x65u8, 0x6Eu8, 0x74u8, 0x2Du8, 0x4Cu8, 0x65u8, 0x6Eu8, 0x67u8, 0x74u8, 0x68u8, 0x3Au8, 0x20u8, 0x30u8, 0x0Du8, 0x0Au8, 0x0Du8, 0x0Au8]
}

fn auth_required_response_bytes() -> (r: &'static [u8])
    ensures
        r@ == auth_required_response_text(),
{
    let r: &'static [u8] = &[0x48, 0x54, 0x54, 0x50, 0x2F, 0x31, 0x2E, 0x31, 0x20, 0x34, 0x30, 0x37, 0x20, 0x50, 0x72, 0x6F, 0x78, 0x79, 0x20, 0x41, 0x75, 0x74, 0x68, 0x65, 0x6E, 0x74, 0x69, 0x63, 0x61, 0x74, 0x69, 0x6F, 0x6E, 0x20, 0x52, 0x65, 0x71, 0x75, 0x69, 0x72, 0x65, 0x64, 0x0D, 0x0A, 0x50, 0x72, 0x6F, 0x78, 0x79, 0x2D, 0x41, 0x75, 0x74, 0x68, 0x65, 0x6E, 0x74, 0x69, 0x63, 0x61, 0x74, 0x65, 0x3A, 0x20, 0x42, 0x61, 0x73, 0x69, 0x63, 0x20, 0x72, 0x65, 0x61, 0x6C, 0x6D, 0x3D, 0x22, 0x50, 0x72, 0x6F, 0x78, 0x79, 0x22, 0x0D, 0x0A, 0x43, 0x6F, 0x6E, 0x74, 0x65, 0x6E, 0x74, 0x2D, 0x4C, 0x65, 0x6E, 0x67, 0x74, 0x68, 0x3A, 0x20, 0x30, 0x0D, 0x0A, 0x0D, 0x0A];
    assert(r@ =~= auth_required_response_text());
    r
}

/// The answer to a tunnel request once the target is connected. (`HTTP/1.1 200 Connection Established\r\n\r\n`)
pub open spec fn established_response_text() -> Seq<u8> {
    seq![0x48u8, 0x54u8, 0x54u8, 0x50u8, 0x2Fu8, 0x31u8, 0x2Eu8, 0x31u8, 0x20u8, 0x32u8, 0x30u8, 0x30u8, 0x20u8, 0x43u8, 0x6Fu8, 0x6Eu8, 0x6Eu8, 0x65u8, 0x63u8, 0x74u8, 0x69u8, 0x6Fu8, 0x6Eu8, 0x20u8, 0x45u8, 0x73u8, 0x74u8, 0x61u8, 0x62u8, 0x6Cu8, 0x69u8, 0x73u8, 0x68u8, 0x65u8, 0x64u8, 0x0Du8, 0x0Au8, 0x0Du8, 0x0Au8]
}

fn established_response_bytes() -> (r: &'static [u8])
    ensures
        r@ == established_response_text(),
{
    let r: &'static [u8] = &[0x48, 0x54, 0x54, 0x50, 0x2F, 0x31, 0x2E, 0x31, 0x20, 0x32, 0x30, 0x30, 0x20, 0x43, 0x6F, 0x6E, 0x6E, 0x65, 0x63, 0x74, 0x69, 0x6F, 0x6E, 0x20, 0x45, 0x73, 0x74, 0x61, 0x62, 0x6C, 0x69, 0x73, 0x68, 0x65, 0x64, 0x0D, 0x0A, 0x0D, 0x0A];
    assert(r@ =~= established_response_text());
    r
}

/// What `url::Url::parse` makes of `s`, read back through `host_str`, `port_or_known_default`,
/// `path` and `query`; `None` where `s` is not a URL.
pub uninterp spec fn url_parts(s: Seq<char>) -> Option<(Option<Seq<char>>, Option<u16>, Seq<char>, Option<Seq<char>>)>;

/// The characters of an optional string.
pub open spec fn opt_chars(o: Option<String>) -> Option<Seq<char>> {
    match o {
        Some(s) => Some(s@),
        None => None,
    }
}

/// Relies on `url::Url::parse` and, on the URL it returns, `host_str`, `port_or_known_default`,
/// `path` and `query`: the parts depend on the text alone.
#[verifier::external_body]
fn parse_url(s: &str) -> (r: Option<(Option<String>, Option<u16>, String, Option<String>)>)
    ensures
        r is Some <==> url_parts(s@) is Some,
        r matches Some(p) ==> url_parts(s@) == Some((opt_chars(p.0), p.1, p.2@, opt_chars(p.3))),
{
    match url::Url::parse(s) {
        Ok(u) => Some(
            (
                u.host_str().map(String::from),
                u.port_or_known_default(),
                String::from(u.path()),
                u.query().map(String::from),
            ),
        ),
        Err(_) => None,
    }
}

/// HTTP proxy errors
#[derive(Debug)]
pub enum HttpProxyError {
    /// The request line has fewer than three parts, or the body length is not a number.
    InvalidRequest,
    /// The method is neither CONNECT nor one that is forwarded.
    UnsupportedMethod,
    /// The target of a forwarded request is not an absolute URL with a host and a port.
    InvalidUrl,
    /// A line of the request is not UTF-8.
    InvalidUtf8,
    /// Credentials are missing or were refused.
    ProxyAuthRequired,
    /// The client closed the connection in the middle of the request.
    ConnectionClosed,
    /// The target could not be reached.
    ConnectFailed(ConnectErrorKind),
    /// An event came that the session was not waiting for.
    UnexpectedEvent,
}

/// One header of a request: its name as received, the name in lower case for lookups, and its
/// value.
pub struct HttpHeader {
    name: Vec<u8>,
    lower: Vec<u8>,
    value: Vec<u8>,
}

impl HttpHeader {
    #[verifier::type_invariant]
    spec fn lower_matches(&self) -> bool {
        self.lower@ == ascii_lower(self.name@)
    }

    pub closed spec fn name(&self) -> Seq<u8> {
        self.name@
    }

    pub closed spec fn value(&self) -> Seq<u8> {
        self.value@
    }

    pub fn new(name: Vec<u8>, value: Vec<u8>) -> (r: Self)
        ensures
            r.name() == name@,
            r.value() == value@,
    {
        let lower = to_ascii_lower(name.as_slice());
        HttpHeader { name, lower, value }
    }

    pub fn name_bytes(&self) -> (r: &[u8])
        ensures
            r@ == self.name(),
    {
        self.name.as_slice()
    }

    pub fn lower_bytes(&self) -> (r: &[u8])
        ensures
            r@ == ascii_lower(self.name()),
    {
        proof {
            use_type_invariant(self);
        }
        self.lower.as_slice()
    }

    pub fn value_bytes(&self) -> (r: &[u8])
        ensures
            r@ == self.value(),
    {
        self.value.as_slice()
    }
}

/// `(name, value)` for each header, in order.
pub open spec fn header_view(hs: Seq<HttpHeader>) -> Seq<(Seq<u8>, Seq<u8>)> {
    hs.map_values(|h: HttpHeader| (h.name(), h.value()))
}

/// A parsed request.
pub struct HttpRequest {
    method: Vec<u8>,
    path: String,
    version: Vec<u8>,
    headers: Vec<HttpHeader>,
    body: Vec<u8>,
}

impl HttpRequest {
    pub closed spec fn method(&self) -> Seq<u8> {
        self.method@
    }

    /// The request target as received.
    pub closed spec fn path(&self) -> Seq<char> {
        self.path@
    }

    pub closed spec fn version(&self) -> Seq<u8> {
        self.version@
    }

    /// `(name, value)` for each header, in the order received.
    pub closed spec fn headers(&self) -> Seq<(Seq<u8>, Seq<u8>)> {
        header_view(self.headers@)
    }

    pub closed spec fn body(&self) -> Seq<u8> {
        self.body@
    }

    fn empty() -> (r: Self)
        ensures
            r.method() == Seq::<u8>::empty(),
            r.path() == Seq::<char>::empty(),
            r.version() == Seq::<u8>::empty(),
            r.headers() == Seq::<(Seq<u8>, Seq<u8>)>::empty(),
            r.body() == Seq::<u8>::empty(),
    {
        let r = HttpRequest {
            method: Vec::new(),
            path: String::new(),
            version: Vec::new(),
            headers: Vec::new(),
            body: Vec::new(),
        };
        assert(r.headers() =~= Seq::<(Seq<u8>, Seq<u8>)>::empty());
        r
    }

    pub fn method_bytes(&self) -> (r: &[u8])
        ensures
            r@ == self.method(),
    {
        self.method.as_slice()
    }

    pub fn path_str(&self) -> (r: &str)
        ensures
            r@ == self.path(),
    {
        self.path.as_str()
    }

    pub fn version_bytes(&self) -> (r: &[u8])
        ensures
            r@ == self.version(),
    {
        self.version.as_slice()
    }

    pub fn body_bytes(&self) -> (r: &[u8])
        ensures
            r@ == self.body(),
    {
        self.body.as_slice()
    }

    pub fn header_count(&self) -> (r: usize)
        ensures
            r == self.headers().len(),
    {
        self.headers.len()
    }

    pub fn header(&self, i: usize) -> (r: &HttpHeader)
        requires
            i < self.headers().len(),
        ensures
            (r.name(), r.value()) == self.headers()[i as int],
    {
        &self.headers[i]
    }
}

/// True for a header that concerns only the hop to the proxy: a lower-case name that starts
/// with `proxy-`, or is `connection`.
pub open spec fn is_hop_by_hop(lower: Seq<u8>) -> bool {
    (lower.len() >= 6 && lower.take(6) == proxy_dash_text()) || lower == connection_name_text()
}

/// The headers that are forwarded, in the order received.
pub open spec fn forwarded_headers(hs: Seq<(Seq<u8>, Seq<u8>)>) -> Seq<(Seq<u8>, Seq<u8>)>
    decreases hs.len(),
{
    if hs.len() == 0 {
        hs
    } else if is_hop_by_hop(ascii_lower(hs.last().0)) {
        forwarded_headers(hs.drop_last())
    } else {
        forwarded_headers(hs.drop_last()).push(hs.last())
    }
}

/// The header lines `name: value\r\n`, one after the other.
pub open spec fn header_block(hs: Seq<(Seq<u8>, Seq<u8>)>) -> Seq<u8>
    decreases hs.len(),
{
    if hs.len() == 0 {
        Seq::empty()
    } else {
        header_block(hs.drop_last()) + hs.last().0 + colon_space_text() + hs.last().1 + crlf_text()
    }
}

/// The request sent upstream: the request line with the origin-form target, the forwarded
/// headers, `Connection: close`, an empty line and the body.
pub open spec fn upstream_request(
    method: Seq<u8>,
    target: Seq<u8>,
    version: Seq<u8>,
    hs: Seq<(Seq<u8>, Seq<u8>)>,
    body: Seq<u8>,
) -> Seq<u8> {
    method + seq![0x20u8] + target + seq![0x20u8] + version + crlf_text() + header_block(
        forwarded_headers(hs),
    ) + connection_close_text() + crlf_text() + body
}

/// The origin-form target `path[?query]`, as bytes.
pub open spec fn origin_form(path: Seq<char>, query: Option<Seq<char>>) -> Seq<u8> {
    match query {
        Some(q) => encode_utf8(path) + seq![0x3Fu8] + encode_utf8(q),
        None => encode_utf8(path),
    }
}

/// Header fidelity on a forwarded request: the forwarded headers are exactly the headers that are
/// not hop-by-hop, in the order received, each with its name as received and its value; no
/// `Proxy-*` or `Connection` header is among them, so the one `Connection: close` that the
/// upstream request appends is the only connection header it holds.
pub proof fn lemma_header_fidelity(hs: Seq<(Seq<u8>, Seq<u8>)>)
    ensures
        forwarded_headers(hs) == hs.filter(|h: (Seq<u8>, Seq<u8>)| !is_hop_by_hop(ascii_lower(h.0))),
        forall|i: int|
            0 <= i < forwarded_headers(hs).len() ==> !is_hop_by_hop(
                ascii_lower(#[trigger] forwarded_headers(hs)[i].0),
            ),
        forall|i: int|
            0 <= i < hs.len() && !is_hop_by_hop(ascii_lower(hs[i].0)) ==> forwarded_headers(
                hs,
            ).contains(#[trigger] hs[i]),
    decreases hs.len(),
{
    let pred = |h: (Seq<u8>, Seq<u8>)| !is_hop_by_hop(ascii_lower(h.0));
    reveal(Seq::filter);
    if hs.len() > 0 {
        lemma_header_fidelity(hs.drop_last());
    }
    assert(forwarded_headers(hs) == hs.filter(pred));
    hs.lemma_filter_len(pred);
    assert forall|i: int| 0 <= i < forwarded_headers(hs).len() implies !is_hop_by_hop(
        ascii_lower(#[trigger] forwarded_headers(hs)[i].0),
    ) by {
        hs.lemma_filter_pred(pred, i);
    }
    assert forall|i: int| 0 <= i < hs.len() && !is_hop_by_hop(ascii_lower(hs[i].0)) implies forwarded_headers(
        hs,
    ).contains(#[trigger] hs[i]) by {
        hs.lemma_filter_contains(pred, i);
    }
}

/// A copy of `out` followed by `data`.
fn append(out: &mut Vec<u8>, data: &[u8])
    ensures
        final(out)@ == old(out)@ + data@,
{
    let ghost start = out@;
    let mut i: usize = 0;
    while i < data.len()
        invariant
            i <= data@.len(),
            out@ == start + data@.subrange(0, i as int),
        decreases data@.len() - i,
    {
        out.push(data[i]);
        i = i + 1;
        assert(out@ == start + data@.subrange(0, i as int));
    }
    assert(data@.subrange(0, data@.len() as int) == data@);
}

/// True iff `a` and `b` hold the same bytes.
fn bytes_eq(a: &[u8], b: &[u8]) -> (r: bool)
    ensures
        r == (a@ == b@),
{
    if a.len() != b.len() {
        return false;
    }
    let mut i: usize = 0;
    while i < a.len()
        invariant
            i <= a@.len(),
            a@.len() == b@.len(),
            a@.subrange(0, i as int) == b@.subrange(0, i as int),
        decreases a@.len() - i,
    {
        if a[i] != b[i] {
            assert(a@[i as int] != b@[i as int]);
            return false;
        }
        i = i + 1;
        assert(a@.subrange(0, i as int) =~= b@.subrange(0, i as int));
    }
    assert(a@ =~= a@.subrange(0, a@.len() as int));
    assert(b@ =~= b@.subrange(0, b@.len() as int));
    true
}

/// True iff `a` starts with `prefix`.
fn starts_with(a: &[u8], prefix: &[u8]) -> (r: bool)
    ensures
        r == (a@.len() >= prefix@.len() && a@.take(prefix@.len() as int) == prefix@),
{
    if a.len() < prefix.len() {
        return false;
    }
    let head = copy_range(a, 0, prefix.len());
    bytes_eq(head.as_slice(), prefix)
}

fn hop_by_hop(lower: &[u8]) -> (r: bool)
    ensures
        r == is_hop_by_hop(lower@),
{
    starts_with(lower, proxy_dash_bytes()) || bytes_eq(lower, connection_name_bytes())
}

/// The request to send upstream for `req`, with `target` in place of the request target.
pub fn build_upstream_request(req: &HttpRequest, target: &[u8]) -> (r: Vec<u8>)
    ensures
        r@ == upstream_request(req.method(), target@, req.version(), req.headers(), req.body()),
{
    let mut out: Vec<u8> = Vec::new();
    append(&mut out, req.method_bytes());
    out.push(0x20);
    append(&mut out, target);
    out.push(0x20);
    append(&mut out, req.version_bytes());
    append(&mut out, crlf_bytes());
    let ghost head = out@;
    let ghost hs = req.headers();
    let mut i: usize = 0;
    while i < req.header_count()
        invariant
            i <= hs.len(),
            hs == req.headers(),
            out@ == head + header_block(forwarded_headers(hs.take(i as int))),
        decreases hs.len() - i,
    {
        let h = req.header(i);
        let ghost f0 = forwarded_headers(hs.take(i as int));
        let ghost before = out@;
        assert(hs.take(i + 1).drop_last() =~= hs.take(i as int));
        assert(hs.take(i + 1).last() == hs[i as int]);
        if !hop_by_hop(h.lower_bytes()) {
            append(&mut out, h.name_bytes());
            append(&mut out, colon_space_bytes());
            append(&mut out, h.value_bytes());
            append(&mut out, crlf_bytes());
            proof {
                let x = hs[i as int];
                assert(forwarded_headers(hs.take(i + 1)) == f0.push(x));
                assert(f0.push(x).drop_last() =~= f0);
                assert(header_block(f0.push(x)) == header_block(f0) + x.0 + colon_space_text() + x.1
                    + crlf_text());
                assert(out@ =~= head + (header_block(f0) + x.0 + colon_space_text() + x.1
                    + crlf_text()));
            }
        } else {
            assert(forwarded_headers(hs.take(i + 1)) == f0);
        }
        i = i + 1;
    }
    assert(hs.take(hs.len() as int) =~= hs);
    append(&mut out, connection_close_bytes());
    append(&mut out, crlf_bytes());
    append(&mut out, req.body_bytes());
    out
}

/// The user name and password in decoded `user:pass` bytes: the parts before and after the first
/// `:`, when both are UTF-8.
pub open spec fn credentials_of(d: Seq<u8>) -> Option<(Seq<char>, Seq<char>)> {
    if exists|c: int| first_colon(d, c) {
        let c = choose|c: int| first_colon(d, c);
        if valid_utf8(d.take(c)) && valid_utf8(d.skip(c + 1)) {
            Some((decode_utf8(d.take(c)), decode_utf8(d.skip(c + 1))))
        } else {
            None
        }
    } else {
        None
    }
}

/// The user name and password of a `Proxy-Authorization` value `Basic <base64 of user:pass>`.
pub open spec fn basic_credentials(v: Seq<u8>) -> Option<(Seq<char>, Seq<char>)> {
    if v.len() >= 6 && v.take(6) == basic_prefix_text() && valid_utf8(v.skip(6)) {
        match base64_decoded(decode_utf8(v.skip(6))) {
            Some(d) => credentials_of(d),
            None => None,
        }
    } else {
        None
    }
}

/// The characters of an optional pair of strings.
pub open spec fn pair_chars(p: Option<(String, String)>) -> Option<(Seq<char>, Seq<char>)> {
    match p {
        Some(x) => Some((x.0@, x.1@)),
        None => None,
    }
}

proof fn lemma_first_colon_unique(d: Seq<u8>, c1: int, c2: int)
    requires
        first_colon(d, c1),
        first_colon(d, c2),
    ensures
        c1 == c2,
{
    if c1 < c2 {
        assert(d[c1] != 0x3Au8);
    } else if c2 < c1 {
        assert(d[c2] != 0x3Au8);
    }
}

/// Splits decoded credentials `user:pass` at the first `:`.
pub fn credentials_from_decoded(d: &[u8]) -> (r: Option<(String, String)>)
    ensures
        pair_chars(r) == credentials_of(d@),
{
    let mut c: usize = 0;
    while c < d.len() && d[c] != 0x3A
        invariant
            c <= d@.len(),
            forall|j: int| 0 <= j < c ==> d@[j] != 0x3Au8,
        decreases d@.len() - c,
    {
        c = c + 1;
    }
    if c >= d.len() {
        assert(!exists|k: int| first_colon(d@, k));
        return None;
    }
    assert(first_colon(d@, c as int));
    proof {
        let k = choose|k: int| first_colon(d@, k);
        lemma_first_colon_unique(d@, k, c as int);
    }
    let user = copy_range(d, 0, c);
    let pass = copy_range(d, c + 1, d.len());
    assert(user@ == d@.take(c as int));
    assert(pass@ == d@.skip(c + 1));
    match (utf8_to_string(user.as_slice()), utf8_to_string(pass.as_slice())) {
        (Some(u), Some(p)) => Some((u, p)),
        _ => None,
    }
}

/// The user name and password of a `Proxy-Authorization` value.
fn credentials_from_header(v: &[u8]) -> (r: Option<(String, String)>)
    ensures
        pair_chars(r) == basic_credentials(v@),
{
    if !starts_with(v, basic_prefix_bytes()) {
        return None;
    }
    let payload = copy_range(v, 6, v.len());
    assert(payload@ == v@.skip(6));
    match utf8_to_string(payload.as_slice()) {
        None => None,
        Some(text) => match base64_decode(text.as_str()) {
            Ok(d) => credentials_from_decoded(d.as_slice()),
            Err(_) => None,
        },
    }
}

/// Header `i` is the first whose lower-case name is `lname`.
pub open spec fn first_header_with(hs: Seq<(Seq<u8>, Seq<u8>)>, lname: Seq<u8>, i: int) -> bool {
    &&& 0 <= i < hs.len()
    &&& ascii_lower(hs[i].0) == lname
    &&& forall|j: int| 0 <= j < i ==> ascii_lower(#[trigger] hs[j].0) != lname
}

/// The value of the first header whose lower-case name is `lname`, if any.
pub open spec fn header_value(hs: Seq<(Seq<u8>, Seq<u8>)>, lname: Seq<u8>) -> Option<Seq<u8>> {
    if exists|i: int| first_header_with(hs, lname, i) {
        Some(hs[choose|i: int| first_header_with(hs, lname, i)].1)
    } else {
        None
    }
}

/// The credentials that a request carries in `Proxy-Authorization`.
pub open spec fn request_credentials(hs: Seq<(Seq<u8>, Seq<u8>)>) -> Option<(Seq<char>, Seq<char>)> {
    match header_value(hs, proxy_authorization_name_text()) {
        Some(v) => basic_credentials(v),
        None => None,
    }
}

/// The length of the body: the value of `Content-Length`, zero without one; `None` when the value
/// is not a number that fits a `usize`.
pub open spec fn body_length(hs: Seq<(Seq<u8>, Seq<u8>)>) -> Option<usize> {
    match header_value(hs, content_length_name_text()) {
        Some(v) => if all_digits(v) && decimal_value(v) <= usize::MAX {
            Some(decimal_value(v) as usize)
        } else {
            None
        },
        None => Some(0),
    }
}

impl HttpRequest {
    /// The value of the first header whose lower-case name is `lname`.
    pub fn find_header(&self, lname: &[u8]) -> (r: Option<&[u8]>)
        ensures
            r is None <==> header_value(self.headers(), lname@) is None,
            r matches Some(v) ==> header_value(self.headers(), lname@) == Some(v@),
    {
        let ghost hs = self.headers();
        let mut i: usize = 0;
        while i < self.headers.len()
            invariant
                i <= hs.len(),
                hs == self.headers(),
                forall|j: int| 0 <= j < i ==> ascii_lower(#[trigger] hs[j].0) != lname@,
            decreases hs.len() - i,
        {
            let h = &self.headers[i];
            assert((h.name(), h.value()) == hs[i as int]);
            if bytes_eq(h.lower_bytes(), lname) {
                proof {
                    assert(first_header_with(hs, lname@, i as int));
                    let k = choose|k: int| first_header_with(hs, lname@, k);
                    if k < i {
                    } else if k > i {
                        assert(ascii_lower(hs[i as int].0) != lname@);
                    }
                }
                return Some(h.value_bytes());
            }
            i = i + 1;
        }
        proof {
            if exists|k: int| first_header_with(hs, lname@, k) {
                let k = choose|k: int| first_header_with(hs, lname@, k);
                assert(ascii_lower(hs[k].0) != lname@);
            }
        }
        None
    }
}

/// The origin-form target `path[?query]`.
pub fn origin_form_bytes(path: &str, query: Option<&str>) -> (r: Vec<u8>)
    ensures
        r@ == origin_form(path@, match query {
            Some(q) => Some(q@),
            None => None,
        }),
{
    let mut out: Vec<u8> = Vec::new();
    append(&mut out, path.as_bytes());
    match query {
        Some(q) => {
            out.push(0x3F);
            append(&mut out, q.as_bytes());
        },
        None => {},
    }
    out
}

/// True for the methods whose requests are forwarded to the URL they name.
pub open spec fn is_forwarded_method(m: Seq<u8>) -> bool {
    m == get_text() || m == post_text() || m == put_text() || m == delete_text() || m == head_text()
        || m == options_text() || m == patch_text()
}

fn forwarded_method(m: &[u8]) -> (r: bool)
    ensures
        r == is_forwarded_method(m@),
{
    bytes_eq(m, get_bytes()) || bytes_eq(m, post_bytes()) || bytes_eq(m, put_bytes()) || bytes_eq(
        m,
        delete_bytes(),
    ) || bytes_eq(m, head_bytes()) || bytes_eq(m, options_bytes()) || bytes_eq(m, patch_bytes())
}

/// Where an HTTP session stands.
#[derive(PartialEq, Eq, Structural)]
pub enum HttpState {
    /// Waiting for the request line.
    RequestLine,
    /// Waiting for header lines, up to the empty line.
    Headers,
    /// Waiting for a body of this many bytes.
    Body(usize),
    /// The request is complete.
    Complete,
    /// Waiting for the verdict on the credentials.
    AwaitingAuth,
    /// Waiting for the outbound connection.
    Connecting,
    /// The tunnel is handed to the forwarder.
    Tunnel,
    /// The request went upstream; its response is relayed.
    Relaying,
    /// The session is over.
    Closed,
}

/// Where a request asks to be connected.
#[derive(Debug)]
pub enum HttpTarget {
    /// The `host:port` of a CONNECT request.
    Authority(String),
    /// The host and port of the URL of a forwarded request.
    HostPort(String, u16),
}

/// What the session reports to the code that runs its I/O.
pub enum HttpEvent {
    /// New bytes were received, or the session starts.
    Data,
    /// The verdict on the credentials of the last `Authenticate` action.
    AuthVerdict(bool),
    /// The connection of the last `Connect` action is open.
    Connected,
    /// The connection of the last `Connect` action failed.
    ConnectFailed(ConnectErrorKind),
}

/// What the code that runs the session's I/O does next, after it has written out what the client
/// connection queued.
pub enum HttpAction {
    /// Read more bytes from the client, then report `Data`.
    NeedMore,
    /// Report `Data` again.
    Proceed,
    /// Check these credentials, then report `AuthVerdict`.
    Authenticate(String, String),
    /// Open a connection to this target, then report `Connected` or `ConnectFailed`.
    Connect(HttpTarget),
    /// Hand the client and the target to the forwarder, in both directions.
    Splice,
    /// Write these bytes to the target, copy what it answers to the client until it closes, then
    /// shut down the client's write side.
    Forward(Vec<u8>),
    /// Close the connection, for this reason.
    Close(HttpProxyError),
}

/// Two requests with the same parts.
pub open spec fn same_request(a: HttpRequest, b: HttpRequest) -> bool {
    &&& a.method() == b.method()
    &&& a.path() == b.path()
    &&& a.version() == b.version()
    &&& a.headers() == b.headers()
    &&& a.body() == b.body()
}

/// What reading the request line does: nothing until it is complete; then its method, target and
/// version start the request.
pub open spec fn request_line_step(
    c0: BufferedConnection,
    c1: BufferedConnection,
    s1: HttpState,
    q0: HttpRequest,
    q1: HttpRequest,
    r: HttpAction,
) -> bool {
    let b = c0.pending();
    if !has_line(b) {
        r is NeedMore && s1 == HttpState::RequestLine && stepped(c0, c1, 0, Seq::empty())
            && same_request(q0, q1)
    } else {
        forall|i: int|
            first_crlf_at(b, i) ==> {
                let line = b.take(i);
                &&& stepped(c0, c1, i + 2, Seq::empty())
                &&& !has_three_tokens(line) ==> (r matches HttpAction::Close(
                    HttpProxyError::InvalidRequest,
                ) && s1 == HttpState::Closed)
                &&& has_three_tokens(line) && !(valid_utf8(token(line, 0)) && valid_utf8(
                    token(line, 1),
                ) && valid_utf8(token(line, 2))) ==> (r matches HttpAction::Close(
                    HttpProxyError::InvalidUtf8,
                ) && s1 == HttpState::Closed)
                &&& has_three_tokens(line) && valid_utf8(token(line, 0)) && valid_utf8(token(line, 1))
                    && valid_utf8(token(line, 2)) ==> {
                    &&& r is Proceed
                    &&& s1 == HttpState::Headers
                    &&& q1.method() == token(line, 0)
                    &&& q1.path() == decode_utf8(token(line, 1))
                    &&& q1.version() == token(line, 2)
                    &&& q1.headers() == q0.headers()
                    &&& q1.body() == q0.body()
                }
            }
    }
}

/// What reading a header line does: nothing until it is complete; a line with a `:` adds a
/// header, one without is skipped, and the empty line ends the headers.
pub open spec fn header_line_step(
    c0: BufferedConnection,
    c1: BufferedConnection,
    s1: HttpState,
    q0: HttpRequest,
    q1: HttpRequest,
    r: HttpAction,
) -> bool {
    let b = c0.pending();
    if !has_line(b) {
        r is NeedMore && s1 == HttpState::Headers && stepped(c0, c1, 0, Seq::empty())
            && same_request(q0, q1)
    } else {
        forall|i: int|
            first_crlf_at(b, i) ==> {
                let line = b.take(i);
                &&& stepped(c0, c1, i + 2, Seq::empty())
                &&& i == 0 ==> match body_length(q0.headers()) {
                    Some(n) => r is Proceed && s1 == HttpState::Body(n) && same_request(q0, q1),
                    None => r matches HttpAction::Close(HttpProxyError::InvalidRequest) && s1
                        == HttpState::Closed,
                }
                &&& i > 0 && !valid_utf8(line) ==> (r matches HttpAction::Close(
                    HttpProxyError::InvalidUtf8,
                ) && s1 == HttpState::Closed)
                &&& i > 0 && valid_utf8(line) ==> {
                    &&& r is Proceed
                    &&& s1 == HttpState::Headers
                    &&& q1.method() == q0.method()
                    &&& q1.path() == q0.path()
                    &&& q1.version() == q0.version()
                    &&& q1.body() == q0.body()
                    &&& (forall|j: int| 0 <= j < line.len() ==> line[j] != 0x3Au8) ==> q1.headers()
                        == q0.headers()
                    &&& forall|c: int|
                        first_colon(line, c) ==> q1.headers() == q0.headers().push(
                            (trimmed(line, 0, c), trimmed(line, c + 1, line.len() as int)),
                        )
                }
            }
    }
}

/// What reading the body does: nothing until all of it is buffered; then it completes the
/// request.
pub open spec fn body_step(
    n: usize,
    c0: BufferedConnection,
    c1: BufferedConnection,
    s1: HttpState,
    q0: HttpRequest,
    q1: HttpRequest,
    r: HttpAction,
) -> bool {
    let b = c0.pending();
    if b.len() < n {
        r is NeedMore && s1 == HttpState::Body(n) && stepped(c0, c1, 0, Seq::empty())
            && same_request(q0, q1)
    } else {
        &&& r is Proceed
        &&& s1 == HttpState::Complete
        &&& stepped(c0, c1, n as int, Seq::empty())
        &&& q1.method() == q0.method()
        &&& q1.path() == q0.path()
        &&& q1.version() == q0.version()
        &&& q1.headers() == q0.headers()
        &&& q1.body() == b.take(n as int)
    }
}

/// What a complete request, or accepted credentials, lead to: a connect to the authority of a
/// CONNECT request, or to the host and port of the URL of a forwarded request.
pub open spec fn dispatch_step(
    q: HttpRequest,
    c0: BufferedConnection,
    c1: BufferedConnection,
    s1: HttpState,
    tunnel: bool,
    origin: Seq<u8>,
    r: HttpAction,
) -> bool {
    &&& stepped(c0, c1, 0, Seq::empty())
    &&& q.method() == connect_text() ==> (r matches HttpAction::Connect(HttpTarget::Authority(a))
        && a@ == q.path() && s1 == HttpState::Connecting && tunnel)
    &&& q.method() != connect_text() && is_forwarded_method(q.method()) ==> match url_parts(
        q.path(),
    ) {
        Some((Some(h), Some(p), path, query)) => r matches HttpAction::Connect(
            HttpTarget::HostPort(h1, p1),
        ) && h1@ == h && p1 == p && s1 == HttpState::Connecting && !tunnel && origin
            == origin_form(path, query),
        _ => r matches HttpAction::Close(HttpProxyError::InvalidUrl) && s1 == HttpState::Closed,
    }
    &&& q.method() != connect_text() && !is_forwarded_method(q.method()) ==> (r matches HttpAction::Close(
        HttpProxyError::UnsupportedMethod,
    ) && s1 == HttpState::Closed)
}

/// What a complete request does: with users configured, a request for a verdict on its
/// credentials, or the 407 answer and a close when it carries none; else the dispatch.
pub open spec fn complete_step(
    has_users: bool,
    q: HttpRequest,
    c0: BufferedConnection,
    c1: BufferedConnection,
    s1: HttpState,
    tunnel: bool,
    origin: Seq<u8>,
    r: HttpAction,
) -> bool {
    if has_users {
        match request_credentials(q.headers()) {
            Some((u, p)) => r matches HttpAction::Authenticate(u1, p1) && u1@ == u && p1@ == p && s1
                == HttpState::AwaitingAuth && stepped(c0, c1, 0, Seq::empty()),
            None => r matches HttpAction::Close(HttpProxyError::ProxyAuthRequired) && s1
                == HttpState::Closed && stepped(c0, c1, 0, auth_required_response_text()),
        }
    } else {
        dispatch_step(q, c0, c1, s1, tunnel, origin, r)
    }
}


/// What the verdict on the credentials does: the dispatch when they were accepted, else the 407
/// answer and a close.
pub open spec fn verdict_step(
    ok: bool,
    q: HttpRequest,
    c0: BufferedConnection,
    c1: BufferedConnection,
    s1: HttpState,
    tunnel: bool,
    origin: Seq<u8>,
    r: HttpAction,
) -> bool {
    &&& ok ==> dispatch_step(q, c0, c1, s1, tunnel, origin, r)
    &&& !ok ==> (r matches HttpAction::Close(HttpProxyError::ProxyAuthRequired) && s1
        == HttpState::Closed && stepped(c0, c1, 0, auth_required_response_text()))
}

/// What the open outbound connection does: a tunnel answers `200 Connection Established` and is
/// spliced; a forwarded request goes upstream in origin form.
pub open spec fn connected_step(
    tunnel: bool,
    origin: Seq<u8>,
    q: HttpRequest,
    c0: BufferedConnection,
    c1: BufferedConnection,
    s1: HttpState,
    r: HttpAction,
) -> bool {
    &&& tunnel ==> r is Splice && s1 == HttpState::Tunnel && stepped(
        c0,
        c1,
        0,
        established_response_text(),
    )
    &&& !tunnel ==> (r matches HttpAction::Forward(bytes) && bytes@ == upstream_request(
        q.method(),
        origin,
        q.version(),
        q.headers(),
        q.body(),
    ) && s1 == HttpState::Relaying && stepped(c0, c1, 0, Seq::empty()))
}

/// An HTTP proxy session on one client connection, from the request line to the splice or relay.
pub struct HttpSession {
    state: HttpState,
    has_users: bool,
    authenticated: bool,
    request: HttpRequest,
    tunnel: bool,
    origin: Vec<u8>,
}

impl HttpSession {
    pub closed spec fn state(&self) -> HttpState {
        self.state
    }

    /// True when users were configured as the session started.
    pub closed spec fn has_users(&self) -> bool {
        self.has_users
    }

    /// True once the credentials given on this connection were accepted.
    pub closed spec fn authenticated(&self) -> bool {
        self.authenticated
    }

    /// The request read so far.
    pub closed spec fn request(&self) -> HttpRequest {
        self.request
    }

    /// True when the request is a CONNECT tunnel.
    pub closed spec fn tunnel(&self) -> bool {
        self.tunnel
    }

    /// The origin-form target of a forwarded request.
    pub closed spec fn origin(&self) -> Seq<u8> {
        self.origin@
    }

    /// Once users are configured, no connection is asked for before the credentials were
    /// accepted.
    pub closed spec fn wf(&self) -> bool {
        self.has_users && (self.state == HttpState::Connecting || self.state == HttpState::Tunnel
            || self.state == HttpState::Relaying) ==> self.authenticated
    }

    pub fn new(has_users: bool) -> (r: Self)
        ensures
            r.wf(),
            r.state() == HttpState::RequestLine,
            r.has_users() == has_users,
            !r.authenticated(),
    {
        HttpSession {
            state: HttpState::RequestLine,
            has_users,
            authenticated: false,
            request: HttpRequest::empty(),
            tunnel: false,
            origin: Vec::new(),
        }
    }

    /// True once the session is over.
    pub fn is_closed(&self) -> (r: bool)
        ensures
            r == (self.state() == HttpState::Closed),
    {
        self.state == HttpState::Closed
    }

    /// The request read so far.
    pub fn current_request(&self) -> (r: &HttpRequest)
        ensures
            *r == self.request(),
    {
        &self.request
    }

    fn close(&mut self, e: HttpProxyError) -> (r: HttpAction)
        ensures
            final(self).state() == HttpState::Closed,
            final(self).has_users() == old(self).has_users(),
            final(self).authenticated() == old(self).authenticated(),
            final(self).request() == old(self).request(),
            final(self).tunnel() == old(self).tunnel(),
            final(self).origin() == old(self).origin(),
            r == HttpAction::Close(e),
    {
        self.state = HttpState::Closed;
        HttpAction::Close(e)
    }
    /// Reads the request line.
    fn on_request_line(&mut self, conn: &mut BufferedConnection) -> (r: HttpAction)
        requires
            old(conn).wf(),
            old(self).wf(),
            old(self).state() == HttpState::RequestLine,
        ensures
            final(conn).wf(),
            r is Connect ==> !final(self).has_users() || final(self).authenticated(),
            final(self).wf(),
            final(self).has_users() == old(self).has_users(),
            final(self).authenticated() == old(self).authenticated(),
            final(self).tunnel() == old(self).tunnel(),
            final(self).origin() == old(self).origin(),
            request_line_step(
                *old(conn),
                *final(conn),
                final(self).state(),
                old(self).request(),
                final(self).request(),
                r,
            ),
    {
        proof {
            lemma_no_step(*conn);
        }
        let line = match conn.take_line() {
            None => {
                return HttpAction::NeedMore;
            },
            Some(l) => l,
        };
        match split_request_line(line.as_slice()) {
            None => self.close(HttpProxyError::InvalidRequest),
            Some((m, t, v)) => {
                let ms = utf8_to_string(m.as_slice());
                let ts = utf8_to_string(t.as_slice());
                let vs = utf8_to_string(v.as_slice());
                match (ms, ts, vs) {
                    (Some(_), Some(path), Some(_)) => {
                        self.request.method = m;
                        self.request.path = path;
                        self.request.version = v;
                        self.state = HttpState::Headers;
                        HttpAction::Proceed
                    },
                    _ => self.close(HttpProxyError::InvalidUtf8),
                }
            },
        }
    }

    /// Reads one header line, or the empty line that ends the headers.
    fn on_header_line(&mut self, conn: &mut BufferedConnection) -> (r: HttpAction)
        requires
            old(conn).wf(),
            old(self).wf(),
            old(self).state() == HttpState::Headers,
        ensures
            final(conn).wf(),
            r is Connect ==> !final(self).has_users() || final(self).authenticated(),
            final(self).wf(),
            final(self).has_users() == old(self).has_users(),
            final(self).authenticated() == old(self).authenticated(),
            final(self).tunnel() == old(self).tunnel(),
            final(self).origin() == old(self).origin(),
            header_line_step(
                *old(conn),
                *final(conn),
                final(self).state(),
                old(self).request(),
                final(self).request(),
                r,
            ),
    {
        proof {
            lemma_no_step(*conn);
        }
        let line = match conn.take_line() {
            None => {
                return HttpAction::NeedMore;
            },
            Some(l) => l,
        };
        if line.len() == 0 {
            let n = match self.request.find_header(content_length_name_bytes()) {
                None => 0,
                Some(v) => match parse_content_length(v) {
                    Some(n) => n,
                    None => {
                        return self.close(HttpProxyError::InvalidRequest);
                    },
                },
            };
            self.state = HttpState::Body(n);
            return HttpAction::Proceed;
        }
        if utf8_to_string(line.as_slice()).is_none() {
            return self.close(HttpProxyError::InvalidUtf8);
        }
        match split_header_line(line.as_slice()) {
            None => HttpAction::Proceed,
            Some((name, value)) => {
                let ghost hs = self.request.headers@;
                let h = HttpHeader::new(name, value);
                self.request.headers.push(h);
                proof {
                    assert(header_view(self.request.headers@) =~= header_view(hs).push(
                        (h.name(), h.value()),
                    ));
                    let c = choose|c: int| first_colon(line@, c) && name@ == trimmed(line@, 0, c)
                        && value@ == trimmed(line@, c + 1, line@.len() as int);
                    assert forall|c2: int| first_colon(line@, c2) implies c2 == c by {
                        if c2 < c {
                            assert(line@[c2] != 0x3Au8);
                        } else if c2 > c {
                            assert(line@[c] != 0x3Au8);
                        }
                    }
                }
                HttpAction::Proceed
            },
        }
    }

    /// Reads a body of `n` bytes.
    fn on_body(&mut self, conn: &mut BufferedConnection, n: usize) -> (r: HttpAction)
        requires
            old(conn).wf(),
            old(self).wf(),
            old(self).state() == HttpState::Body(n),
        ensures
            final(conn).wf(),
            r is Connect ==> !final(self).has_users() || final(self).authenticated(),
            final(self).wf(),
            final(self).has_users() == old(self).has_users(),
            final(self).authenticated() == old(self).authenticated(),
            final(self).tunnel() == old(self).tunnel(),
            final(self).origin() == old(self).origin(),
            body_step(
                n,
                *old(conn),
                *final(conn),
                final(self).state(),
                old(self).request(),
                final(self).request(),
                r,
            ),
    {
        proof {
            lemma_no_step(*conn);
        }
        match conn.read_from_buffer(n) {
            None => HttpAction::NeedMore,
            Some(body) => {
                self.request.body = body;
                self.state = HttpState::Complete;
                HttpAction::Proceed
            },
        }
    }

    /// Connects to what the complete request names.
    fn dispatch(&mut self, conn: &mut BufferedConnection) -> (r: HttpAction)
        requires
            old(conn).wf(),
            old(self).wf(),
            !old(self).has_users() || old(self).authenticated(),
        ensures
            final(conn).wf(),
            r is Connect ==> !final(self).has_users() || final(self).authenticated(),
            final(self).wf(),
            final(self).has_users() == old(self).has_users(),
            final(self).authenticated() == old(self).authenticated(),
            final(self).request() == old(self).request(),
            *final(conn) == *old(conn),
            dispatch_step(
                old(self).request(),
                *old(conn),
                *final(conn),
                final(self).state(),
                final(self).tunnel(),
                final(self).origin(),
                r,
            ),
    {
        proof {
            lemma_no_step(*conn);
        }
        if bytes_eq(self.request.method_bytes(), connect_bytes()) {
            self.tunnel = true;
            self.state = HttpState::Connecting;
            return HttpAction::Connect(HttpTarget::Authority(self.request.path.clone()));
        }
        if !forwarded_method(self.request.method_bytes()) {
            return self.close(HttpProxyError::UnsupportedMethod);
        }
        match parse_url(self.request.path_str()) {
            Some((Some(host), Some(port), path, query)) => {
                let origin = match &query {
                    Some(q) => origin_form_bytes(path.as_str(), Some(q.as_str())),
                    None => origin_form_bytes(path.as_str(), None),
                };
                self.origin = origin;
                self.tunnel = false;
                self.state = HttpState::Connecting;
                HttpAction::Connect(HttpTarget::HostPort(host, port))
            },
            _ => self.close(HttpProxyError::InvalidUrl),
        }
    }

    /// With users configured, asks for a verdict on the request's credentials; else connects.
    fn on_complete(&mut self, conn: &mut BufferedConnection) -> (r: HttpAction)
        requires
            old(conn).wf(),
            old(self).wf(),
            old(self).state() == HttpState::Complete,
        ensures
            final(conn).wf(),
            r is Connect ==> !final(self).has_users() || final(self).authenticated(),
            final(self).wf(),
            final(self).has_users() == old(self).has_users(),
            final(self).authenticated() == old(self).authenticated(),
            final(self).request() == old(self).request(),
            complete_step(
                old(self).has_users(),
                old(self).request(),
                *old(conn),
                *final(conn),
                final(self).state(),
                final(self).tunnel(),
                final(self).origin(),
                r,
            ),
    {
        if !self.has_users {
            return self.dispatch(conn);
        }
        proof {
            lemma_no_step(*conn);
        }
        let creds = match self.request.find_header(proxy_authorization_name_bytes()) {
            Some(v) => credentials_from_header(v),
            None => None,
        };
        match creds {
            Some((u, p)) => {
                self.state = HttpState::AwaitingAuth;
                HttpAction::Authenticate(u, p)
            },
            None => {
                conn.write_to_buffer(auth_required_response_bytes());
                self.close(HttpProxyError::ProxyAuthRequired)
            },
        }
    }

    /// Takes the verdict on the credentials.
    fn on_verdict(&mut self, conn: &mut BufferedConnection, ok: bool) -> (r: HttpAction)
        requires
            old(conn).wf(),
            old(self).wf(),
            old(self).state() == HttpState::AwaitingAuth,
        ensures
            final(conn).wf(),
            r is Connect ==> !final(self).has_users() || final(self).authenticated(),
            final(self).wf(),
            final(self).has_users() == old(self).has_users(),
            final(self).authenticated() == (old(self).authenticated() || ok),
            final(self).request() == old(self).request(),
            verdict_step(
                ok,
                old(self).request(),
                *old(conn),
                *final(conn),
                final(self).state(),
                final(self).tunnel(),
                final(self).origin(),
                r,
            ),
    {
        if ok {
            self.authenticated = true;
            return self.dispatch(conn);
        }
        proof {
            lemma_no_step(*conn);
        }
        conn.write_to_buffer(auth_required_response_bytes());
        self.close(HttpProxyError::ProxyAuthRequired)
    }

    /// Takes the open outbound connection.
    fn on_connected(&mut self, conn: &mut BufferedConnection) -> (r: HttpAction)
        requires
            old(conn).wf(),
            old(self).wf(),
            old(self).state() == HttpState::Connecting,
        ensures
            final(conn).wf(),
            r is Connect ==> !final(self).has_users() || final(self).authenticated(),
            final(self).wf(),
            final(self).has_users() == old(self).has_users(),
            final(self).authenticated() == old(self).authenticated(),
            final(self).request() == old(self).request(),
            connected_step(
                old(self).tunnel(),
                old(self).origin(),
                old(self).request(),
                *old(conn),
                *final(conn),
                final(self).state(),
                r,
            ),
    {
        proof {
            lemma_no_step(*conn);
        }
        if self.tunnel {
            conn.write_to_buffer(established_response_bytes());
            self.state = HttpState::Tunnel;
            HttpAction::Splice
        } else {
            let bytes = build_upstream_request(&self.request, self.origin.as_slice());
            self.state = HttpState::Relaying;
            HttpAction::Forward(bytes)
        }
    }

    /// Advances the session by one event. The caller then writes out what `conn` queued and does
    /// what the returned action says.
    pub fn step(&mut self, conn: &mut BufferedConnection, event: HttpEvent) -> (r: HttpAction)
        requires
            old(conn).wf(),
            old(self).wf(),
        ensures
            final(self).wf(),
            final(conn).wf(),
            final(self).has_users() == old(self).has_users(),
            r is Connect ==> !final(self).has_users() || final(self).authenticated(),
            final(self).authenticated() ==> old(self).authenticated() || (old(self).state()
                == HttpState::AwaitingAuth && event matches HttpEvent::AuthVerdict(true)),
            !(old(self).state() == HttpState::RequestLine || old(self).state() == HttpState::Headers
                || old(self).state() is Body) ==> final(self).request() == old(self).request(),
            ({
                let c0 = *old(conn);
                let c1 = *final(conn);
                let s1 = final(self).state();
                let q0 = old(self).request();
                let q1 = final(self).request();
                match (old(self).state(), event) {
                    (HttpState::RequestLine, HttpEvent::Data) => request_line_step(c0, c1, s1, q0, q1, r),
                    (HttpState::Headers, HttpEvent::Data) => header_line_step(c0, c1, s1, q0, q1, r),
                    (HttpState::Body(n), HttpEvent::Data) => body_step(n, c0, c1, s1, q0, q1, r),
                    (HttpState::Complete, HttpEvent::Data) => complete_step(
                        old(self).has_users(),
                        q0,
                        c0,
                        c1,
                        s1,
                        final(self).tunnel(),
                        final(self).origin(),
                        r,
                    ),
                    (HttpState::AwaitingAuth, HttpEvent::AuthVerdict(ok)) => verdict_step(
                        ok,
                        q0,
                        c0,
                        c1,
                        s1,
                        final(self).tunnel(),
                        final(self).origin(),
                        r,
                    ),
                    (HttpState::Connecting, HttpEvent::Connected) => connected_step(
                        old(self).tunnel(),
                        old(self).origin(),
                        q0,
                        c0,
                        c1,
                        s1,
                        r,
                    ),
                    (HttpState::Connecting, HttpEvent::ConnectFailed(k)) => r == HttpAction::Close(
                        HttpProxyError::ConnectFailed(k),
                    ) && s1 == HttpState::Closed && stepped(c0, c1, 0, Seq::empty()),
                    _ => r matches HttpAction::Close(HttpProxyError::UnexpectedEvent) && s1
                        == HttpState::Closed && stepped(c0, c1, 0, Seq::empty()),
                }
            }),
    {
        match (&self.state, event) {
            (HttpState::RequestLine, HttpEvent::Data) => self.on_request_line(conn),
            (HttpState::Headers, HttpEvent::Data) => self.on_header_line(conn),
            (HttpState::Body(n), HttpEvent::Data) => {
                let n = *n;
                self.on_body(conn, n)
            },
            (HttpState::Complete, HttpEvent::Data) => self.on_complete(conn),
            (HttpState::AwaitingAuth, HttpEvent::AuthVerdict(ok)) => self.on_verdict(conn, ok),
            (HttpState::Connecting, HttpEvent::Connected) => self.on_connected(conn),
            (HttpState::Connecting, HttpEvent::ConnectFailed(k)) => {
                proof {
                    lemma_no_step(*conn);
                }
                self.close(HttpProxyError::ConnectFailed(k))
            },
            _ => {
                proof {
                    lemma_no_step(*conn);
                }
                self.close(HttpProxyError::UnexpectedEvent)
            },
        }
    }
}


/// Auth gating: with users configured, a session that asked for a connection to its target, or
/// tunnels or relays, had the credentials given on its own connection accepted. `step` sets that
/// mark only on an accepting verdict for the credentials it asked about.
pub proof fn lemma_auth_gating(s: HttpSession)
    requires
        s.wf(),
        s.has_users(),
        s.state() == HttpState::Connecting || s.state() == HttpState::Tunnel || s.state()
            == HttpState::Relaying,
    ensures
        s.authenticated(),
{
}

/// HTTP proxy
pub struct HttpProxy {
    /// Authentication manager
    auth_manager: Arc<AuthManager>,
}

impl HttpProxy {
    /// The authentication manager that this proxy consults.
    pub closed spec fn auth(&self) -> AuthManager {
        *self.auth_manager
    }

    pub fn new(auth_manager: Arc<AuthManager>) -> (r: Self)
        ensures
            r.auth() == *auth_manager,
    {
        HttpProxy { auth_manager }
    }

    /// A session for a new client connection.
    pub fn start_session(&self) -> (r: HttpSession)
        ensures
            r.wf(),
            r.state() == HttpState::RequestLine,
            r.has_users() == (self.auth().entries().len() > 0),
            !r.authenticated(),
    {
        HttpSession::new(self.auth_manager.has_users())
    }

    /// The verdict on the credentials of an `Authenticate` action: true only when the user
    /// exists and bcrypt finds that the password matches.
    pub fn check_credentials(&self, username: &str, password: &str) -> (r: bool)
        ensures
            r == (self.auth().hash_of(username@) matches Some(h) && bcrypt_verdict(password@, h)
                == Some(true)),
    {
        self.auth_manager.check(username, password)
    }
}

} // verus!
